//! ZSCII characters: the 8-bit character set of the Z-machine, and its
//! mapping to and from Unicode through a translation table.
//!
//! Codes 155..=251 map through the table (the default one below, or a custom
//! v5+ table from the story header); 32..=126 map to ASCII; a handful of
//! control codes are special.

use vstd::prelude::*;

verus! {

/// The default ZSCII-to-Unicode translation for codes 155 and up.
pub const DEFAULT_UNICODE_TABLE: [char; 69] = [
    'ä', 'ö', 'ü', 'Ä', 'Ö', 'Ü', 'ß', '»', '«', 'ë', 'ï', 'ÿ', 'Ë', 'Ï', 'á', 'é', 'í', 'ó',
    'ú', 'ý', 'Á', 'É', 'Í', 'Ó', 'Ú', 'Ý', 'à', 'è', 'ì', 'ò', 'ù', 'À', 'È', 'Ì', 'Ò', 'Ù',
    'â', 'ê', 'î', 'ô', 'û', 'Â', 'Ê', 'Î', 'Ô', 'Û', 'å', 'Å', 'ø', 'Ø', 'ã', 'ñ', 'õ', 'Ã',
    'Ñ', 'Õ', 'æ', 'Æ', 'ç', 'Ç', 'þ', 'ð', 'Þ', 'Ð', '£', 'œ', 'Œ', '¡', '¿',
];


/// Relies on `char::from_u32`: a `Some` result is the character with
/// exactly the requested code point.
pub assume_specification[ char::from_u32 ](v: u32) -> (r: Option<char>)
    ensures
        match r {
            Some(c) => c as u32 == v,
            None => true,
        },
;

/// What lowercasing yields for a character: a function of the character
/// alone.
pub uninterp spec fn lower_char_of(c: char) -> char;

/// Relies on `char::to_lowercase`, keeping the first character of the
/// expansion. By the documented simple mapping, an ASCII letter lowers by
/// 32 and every other ASCII character is unchanged.
#[verifier::external_body]
pub fn lower_char(c: char) -> (r: char)
    ensures
        r == lower_char_of(c),
        'A' <= c <= 'Z' ==> r as u32 == c as u32 + 32,
        (c as u32) < 128 && !('A' <= c <= 'Z') ==> r == c,
{
    c.to_lowercase().next().unwrap_or(c)
}

/// Index of the first occurrence of `c` in `table`, if any.
pub open spec fn spec_first_pos(table: Seq<char>, c: char) -> Option<int>
    decreases table.len(),
{
    if table.len() == 0 {
        None
    } else if table[0] == c {
        Some(0)
    } else {
        match spec_first_pos(table.skip(1), c) {
            None => None,
            Some(i) => Some(i + 1),
        }
    }
}

pub proof fn lemma_first_pos_hit(table: Seq<char>, c: char, i: int)
    requires
        0 <= i < table.len(),
        table[i] == c,
        forall|j: int| 0 <= j < i ==> table[j] != c,
    ensures
        spec_first_pos(table, c) == Some(i),
    decreases i,
{
    if i > 0 {
        lemma_first_pos_hit(table.skip(1), c, i - 1);
    }
}

pub proof fn lemma_first_pos_miss(table: Seq<char>, c: char)
    requires
        forall|j: int| 0 <= j < table.len() ==> table[j] != c,
    ensures
        spec_first_pos(table, c) is None,
    decreases table.len(),
{
    if table.len() > 0 {
        lemma_first_pos_miss(table.skip(1), c);
    }
}

pub proof fn lemma_first_pos_lower_bound(table: Seq<char>, c: char, k: int)
    requires
        0 <= k,
        forall|j: int| 0 <= j < k && j < table.len() ==> table[j] != c,
    ensures
        match spec_first_pos(table, c) {
            None => true,
            Some(i) => i >= k,
        },
    decreases table.len(),
{
    if table.len() > 0 {
        if k > 0 {
            lemma_first_pos_lower_bound(table.skip(1), c, k - 1);
        } else {
            lemma_first_pos_lower_bound(table.skip(1), c, 0);
        }
    }
}

/// What `ZChar::from_char` returns.
pub open spec fn spec_from_char(ch: char, table: Seq<char>) -> Option<u8> {
    let code = ch as u32;
    if code == 0 || code == 8 || code == 9 || code == 27 || (32 <= code <= 126) {
        Some(code as u8)
    } else if code == 10 || code == 13 {
        Some(13u8)
    } else if code == 11 {
        Some(32u8)
    } else {
        match spec_first_pos(table, ch) {
            Some(i) => if i < 97 {
                Some((155 + i) as u8)
            } else {
                None
            },
            None => None,
        }
    }
}

/// What `ZChar::to_char` returns.
pub open spec fn spec_to_char(code: u8, table: Seq<char>) -> char {
    if code == 0 || code == 9 || code == 11 || code == 13 || (32 <= code <= 126) {
        code as char
    } else if 155 <= code <= 251 {
        if code - 155 < table.len() {
            table[code - 155]
        } else {
            '?'
        }
    } else {
        '?'
    }
}

#[derive(Copy, Clone, Ord, PartialOrd, Eq, PartialEq, Debug, Structural)]
pub struct ZChar(pub u8);

impl ZChar {
    /// The ZSCII code for one of the keypad digit keys.
    pub fn keypad(digit: u8) -> (r: ZChar)
        requires
            digit <= 9,
        ensures
            r.0 == 145 + digit,
    {
        ZChar(145 + digit)
    }

    /// Encode one Unicode character as ZSCII, looking unmapped characters up
    /// in the translation table; `None` when the character is unrepresentable.
    pub fn from_char(ch: char, table: &[char]) -> (r: Option<ZChar>)
        ensures
            match r {
                None => spec_from_char(ch, table@) is None,
                Some(z) => spec_from_char(ch, table@) == Some(z.0),
            },
    {
        let code: u32 = ch as u32;
        if code == 0 || code == 8 || code == 9 || code == 27 || (32 <= code && code <= 126) {
            Some(ZChar(code as u8))
        } else if code == 10 || code == 13 {
            Some(ZChar(13))
        } else if code == 11 {
            Some(ZChar(32))
        } else {
            let mut i: usize = 0;
            let n = table.len();
            while i < n && i < 97
                invariant
                    n == table@.len(),
                    i <= n,
                    i <= 97,
                    forall|j: int| 0 <= j < i ==> table@[j] != ch,
                    !(ch as u32 == 0 || (8 <= ch as u32 <= 11) || ch as u32 == 13 || ch as u32
                        == 27 || (32 <= ch as u32 <= 126)),
                decreases n - i,
            {
                if table[i] == ch {
                    proof {
                        lemma_first_pos_hit(table@, ch, i as int);
                    }
                    return Some(ZChar(155 + i as u8));
                }
                i = i + 1;
            }
            proof {
                if i < 97 {
                    lemma_first_pos_miss(table@, ch);
                } else {
                    lemma_first_pos_lower_bound(table@, ch, 97);
                }
            }
            None
        }
    }

    /// Decode one ZSCII code to Unicode; codes outside the printable set
    /// come back as `'?'`.
    pub fn to_char(self, table: &[char]) -> (r: char)
        ensures
            r == spec_to_char(self.0, table@),
    {
        let c = self.0;
        if c == 0 || c == 9 || c == 11 || c == 13 || (32 <= c && c <= 126) {
            c as char
        } else if 155 <= c && c <= 251 {
            let idx = (c - 155) as usize;
            if idx < table.len() {
                table[idx]
            } else {
                '?'
            }
        } else {
            '?'
        }
    }
}

} // verus!
