use encrusted_heart::buffer::Buffer;
use encrusted_heart::zscii::{ZChar, DEFAULT_UNICODE_TABLE};
use encrusted_heart::zstring::{
    chars_of_str, decode_zstring, encode_zchars, pack_zchars, zstring_length, Alphabet,
};
use encrusted_heart::ZmachineError;

fn encode_to_bytes(text: &str) -> Vec<u8> {
    let alpha = Alphabet::default();
    let table: Vec<char> = DEFAULT_UNICODE_TABLE.iter().copied().collect();
    let chars = chars_of_str(text);
    let zchars = encode_zchars(chars.as_slice(), &alpha, table.as_slice());
    pack_zchars(zchars.as_slice())
}

fn decode_from(bytes: Vec<u8>, addr: usize) -> Result<(Vec<char>, usize), ZmachineError> {
    let alpha = Alphabet::default();
    let table: Vec<char> = DEFAULT_UNICODE_TABLE.iter().copied().collect();
    let buf = Buffer::new(bytes);
    decode_zstring(&buf, addr, &alpha, 0, table.as_slice())
}

#[test]
fn round_trip_plain_text() {
    let text = "hello world";
    let bytes = encode_to_bytes(text);
    let (decoded, _) = decode_from(bytes, 0).unwrap();
    let expected: Vec<char> = text.chars().collect();
    assert_eq!(decoded, expected);
}

#[test]
fn round_trip_mixed_case_and_punctuation() {
    let text = "Take the Brass Lantern, then go North!";
    let bytes = encode_to_bytes(text);
    let (decoded, _) = decode_from(bytes, 0).unwrap();
    let expected: Vec<char> = text.chars().collect();
    assert_eq!(decoded, expected);
}

#[test]
fn round_trip_tenbit_escapes() {
    // '@' and '~' sit outside the alphabet rows and travel as 10-bit
    // ZSCII escapes.
    let text = "user@host ~tmp";
    let bytes = encode_to_bytes(text);
    let (decoded, _) = decode_from(bytes, 0).unwrap();
    let expected: Vec<char> = text.chars().collect();
    assert_eq!(decoded, expected);
}

#[test]
fn round_trip_unicode_table_characters() {
    let text = "tür café"; // 'ü' 'é' map through the default unicode table
    let bytes = encode_to_bytes(text);
    let (decoded, _) = decode_from(bytes, 0).unwrap();
    let expected: Vec<char> = text.chars().collect();
    assert_eq!(decoded, expected);
}

#[test]
fn round_trip_empty_string() {
    let bytes = encode_to_bytes("");
    assert_eq!(bytes.len(), 2); // one padded stop word
    let (decoded, end) = decode_from(bytes, 0).unwrap();
    assert!(decoded.is_empty());
    assert_eq!(end, 2);
}

#[test]
fn encoded_length_matches_decoder() {
    let text = "mailbox";
    let bytes = encode_to_bytes(text);
    let n = bytes.len();
    let buf = Buffer::new(bytes);
    assert_eq!(zstring_length(&buf, 0).unwrap(), n);
}

#[test]
fn abbreviation_expands_into_text() {
    // Entry 0 of the abbreviation table is the Z-string for "the ".
    // A string consisting of (shift 1, 0) then "x" must decode with the
    // abbreviation's text substituted in front.
    let abbrev_text = encode_to_bytes("the ");
    let main_alpha = Alphabet::default();
    let table: Vec<char> = DEFAULT_UNICODE_TABLE.iter().copied().collect();

    // Layout: [0..2) abbrev table (one word), [2..2+n) "the ", then the
    // main string at an even address after it.
    let mut mem: Vec<u8> = Vec::new();
    mem.push(0);
    mem.push(0); // abbrev table entry 0: patched below
    let the_addr = mem.len();
    mem.extend_from_slice(&abbrev_text);
    if mem.len() % 2 == 1 {
        mem.push(0);
    }
    let main_addr = mem.len();
    // Z-characters: 1 (abbrev shift), 0 (entry index), then 'x' (a0[29]).
    // Packed: word1 = 1,0,29 with stop bit.
    let w: u16 = 0x8000 | (1 << 10) | (0 << 5) | 29;
    mem.push((w >> 8) as u8);
    mem.push((w & 0xFF) as u8);
    // Patch the abbreviation table: word addresses are byte address / 2.
    let word_addr = (the_addr / 2) as u16;
    mem[0] = (word_addr >> 8) as u8;
    mem[1] = (word_addr & 0xFF) as u8;

    let buf = Buffer::new(mem);
    let (decoded, _) = decode_zstring(&buf, main_addr, &main_alpha, 0, table.as_slice()).unwrap();
    let s: String = decoded.into_iter().collect();
    assert_eq!(s, "the x");
}

#[test]
fn self_referential_abbreviation_fails() {
    // Entry 0 decodes to a string that invokes entry 0 again.
    let alpha = Alphabet::default();
    let table: Vec<char> = DEFAULT_UNICODE_TABLE.iter().copied().collect();
    let mut mem: Vec<u8> = Vec::new();
    // Abbrev table at 0: entry 0 points at byte address 2, i.e. word 1.
    mem.push(0);
    mem.push(1);
    // At byte 2: a string whose Z-characters are (1, 0, pad) with stop.
    let w: u16 = 0x8000 | (1 << 10) | (0 << 5) | 5;
    mem.push((w >> 8) as u8);
    mem.push((w & 0xFF) as u8);
    let buf = Buffer::new(mem);
    let r = decode_zstring(&buf, 2, &alpha, 0, table.as_slice());
    assert_eq!(r.unwrap_err(), ZmachineError::RecursiveAbbreviation);
}

#[test]
fn zscii_from_char_and_back() {
    let table: Vec<char> = DEFAULT_UNICODE_TABLE.iter().copied().collect();
    assert_eq!(ZChar::from_char('a', table.as_slice()).unwrap().0, 97);
    assert_eq!(ZChar::from_char('\n', table.as_slice()).unwrap().0, 13);
    assert_eq!(ZChar::from_char('ä', table.as_slice()).unwrap().0, 155);
    assert_eq!(ZChar(97).to_char(table.as_slice()), 'a');
    assert_eq!(ZChar(155).to_char(table.as_slice()), 'ä');
    assert_eq!(ZChar(7).to_char(table.as_slice()), '?');
    assert_eq!(ZChar::keypad(3).0, 148);
}
