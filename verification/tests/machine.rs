use encrusted_heart::instruction::{Instruction, Opcode, Operand};
use encrusted_heart::options::Options;
use encrusted_heart::traits::BaseUI;
use encrusted_heart::zmachine::{Step, Zmachine};
use encrusted_heart::zscii::DEFAULT_UNICODE_TABLE;
use encrusted_heart::zstring::{chars_of_str, encode_zchars, pack_zchars, Alphabet};
use encrusted_heart::ZmachineError;

const GLOBALS: usize = 0x40;
const PROP_DEFAULTS: usize = 0x220;
const OBJ_TABLE: usize = 0x25E; // PROP_DEFAULTS + 31 * 2
const DICT: usize = 0x2C0;
const TEXT_BUF: usize = 0x320;
const PARSE_BUF: usize = 0x340;
const STATIC_START: usize = 0x400;
const CODE: usize = 0x400;

fn ztext(s: &str) -> Vec<u8> {
    let alpha = Alphabet::default();
    let table: Vec<char> = DEFAULT_UNICODE_TABLE.iter().copied().collect();
    let chars = chars_of_str(s);
    let z = encode_zchars(chars.as_slice(), &alpha, table.as_slice());
    pack_zchars(z.as_slice())
}

/// Four bytes of dictionary key: the packed word truncated or padded.
fn dict_key(s: &str) -> [u8; 4] {
    let packed = ztext(s);
    let mut out = [0x80u8, 0, 0x80, 0];
    for (i, b) in packed.iter().take(4).enumerate() {
        out[i] = *b;
    }
    out
}

fn w(mem: &mut [u8], addr: usize, value: u16) {
    mem[addr] = (value >> 8) as u8;
    mem[addr + 1] = (value & 0xFF) as u8;
}

/// A small, well-formed v3 story: three objects, a dictionary with
/// separators, a text and a parse buffer, and the given code at the
/// initial program counter.
fn story(code: &[u8]) -> Vec<u8> {
    let mut mem = vec![0u8; 0x800];
    mem[0] = 3;
    w(&mut mem, 0x02, 1); // release
    w(&mut mem, 0x06, CODE as u16);
    w(&mut mem, 0x08, DICT as u16);
    w(&mut mem, 0x0A, PROP_DEFAULTS as u16);
    w(&mut mem, 0x0C, GLOBALS as u16);
    w(&mut mem, 0x0E, STATIC_START as u16);
    mem[0x12..0x18].copy_from_slice(b"260101");
    w(&mut mem, 0x18, 0x0200); // abbreviation table (empty)
    w(&mut mem, 0x1C, 0xBEEF); // checksum, matched on restore

    // Global 0: the current room, object 1.
    w(&mut mem, GLOBALS, 1);

    // Three 9-byte object records.
    let obj = |n: usize| OBJ_TABLE + (n - 1) * 9;
    // object 1: child is object 2
    mem[obj(1) + 4] = 0; // parent
    mem[obj(1) + 5] = 0; // sibling
    mem[obj(1) + 6] = 2; // child
    w(&mut mem, obj(1) + 7, 0x280);
    // object 2: inside object 1, elder sibling of object 3
    mem[obj(2) + 4] = 1;
    mem[obj(2) + 5] = 3;
    mem[obj(2) + 6] = 0;
    w(&mut mem, obj(2) + 7, 0x298);
    // object 3: inside object 1
    mem[obj(3) + 4] = 1;
    mem[obj(3) + 5] = 0;
    mem[obj(3) + 6] = 0;
    w(&mut mem, obj(3) + 7, 0x2B0);

    // Property tables: a name, one property, a terminator.
    let mut prop_table = |at: usize, name: &str, prop_num: u8, value: u16| {
        let ztext = ztext(name);
        mem[at] = (ztext.len() / 2) as u8;
        mem[at + 1..at + 1 + ztext.len()].copy_from_slice(&ztext);
        let p = at + 1 + ztext.len();
        mem[p] = prop_num + 32; // two-byte payload: (len-1)*32 + num
        mem[p + 1] = (value >> 8) as u8;
        mem[p + 2] = (value & 0xFF) as u8;
        mem[p + 3] = 0;
    };
    prop_table(0x280, "West of House", 5, 0x1234);
    prop_table(0x298, "mailbox", 6, 0x0042);
    prop_table(0x2B0, "leaflet", 5, 0x0007);

    // Dictionary: separators . , " and three 7-byte entries.
    let mut d = DICT;
    mem[d] = 3;
    mem[d + 1] = b'.';
    mem[d + 2] = b',';
    mem[d + 3] = b'"';
    mem[d + 4] = 7; // entry length
    w(&mut mem, d + 5, 3); // entry count
    d = d + 7;
    for wstr in ["look", "at", "."] {
        let key = dict_key(wstr);
        mem[d..d + 4].copy_from_slice(&key);
        d += 7;
    }

    // Buffer capacities.
    mem[TEXT_BUF] = 30;
    mem[PARSE_BUF] = 10;

    mem[CODE..CODE + code.len()].copy_from_slice(code);
    mem
}

fn boot(code: &[u8]) -> Zmachine<BaseUI> {
    Zmachine::new(story(code), BaseUI::new(), Options::default()).unwrap()
}

fn store_instr(opcode: Opcode, operands: Vec<Operand>, store_var: u8) -> Instruction {
    Instruction {
        addr: CODE,
        opcode,
        operands,
        store: Some(store_var),
        branch: None,
        branch_pos: None,
        text: None,
        next: CODE + 1,
    }
}

fn effect_instr(opcode: Opcode, operands: Vec<Operand>) -> Instruction {
    Instruction {
        addr: CODE,
        opcode,
        operands,
        store: None,
        branch: None,
        branch_pos: None,
        text: None,
        next: CODE + 1,
    }
}

fn run_store(zvm: &mut Zmachine<BaseUI>, opcode: Opcode, a: u16, b: u16) -> u16 {
    let instr = store_instr(
        opcode,
        vec![Operand::Large(a), Operand::Large(b)],
        0x10 + 4, // global 4
    );
    zvm.handle_instruction(&instr).unwrap();
    zvm.global_word(4).unwrap()
}

#[test]
fn boot_and_first_read() {
    let mut code = vec![0xB2];
    code.extend_from_slice(&ztext("Hello.\n>"));
    code.extend_from_slice(&[0xE4, 0x0F, 0x03, 0x20, 0x03, 0x40]); // sread text parse
    code.push(0xBA); // quit
    let mut zvm = boot(&code);
    let step = zvm.step().unwrap();
    assert_eq!(step, Step::ReadLine);
    let runs = zvm.ui.drain_output();
    let all: String = runs.iter().map(|r| r.content.clone()).collect();
    assert!(all.ends_with(">"));
    assert!(all.contains("Hello."));
    let (left, right) = zvm.ui.status_line().map(|(l, r)| (l.to_string(), r.to_string())).unwrap();
    assert_eq!(left, "West of House");
    assert_eq!(right, "0/0");
}

#[test]
fn tokenise_separators_and_offsets() {
    let mut code = vec![0xB2];
    code.extend_from_slice(&ztext(">"));
    code.extend_from_slice(&[0xE4, 0x0F, 0x03, 0x20, 0x03, 0x40]);
    code.push(0xBA);
    let mut zvm = boot(&code);
    assert_eq!(zvm.step().unwrap(), Step::ReadLine);
    zvm.handle_input(chars_of_str("look at mailbox.")).unwrap();
    // Parse buffer: count, then (dict word, length, offset) per token.
    assert_eq!(zvm.peek_byte(PARSE_BUF + 1).unwrap(), 4);
    let entry = |k: usize| {
        (
            zvm.peek_word(PARSE_BUF + 2 + 4 * k).unwrap(),
            zvm.peek_byte(PARSE_BUF + 2 + 4 * k + 2).unwrap(),
            zvm.peek_byte(PARSE_BUF + 2 + 4 * k + 3).unwrap(),
        )
    };
    let (d0, l0, o0) = entry(0);
    let (d1, l1, o1) = entry(1);
    let (d2, l2, o2) = entry(2);
    let (d3, l3, o3) = entry(3);
    assert!(d0 != 0); // "look" is in the dictionary
    assert_eq!((l0, o0), (4, 1));
    assert!(d1 != 0); // "at"
    assert_eq!((l1, o1), (2, 6));
    assert_eq!(d2, 0); // "mailbox" is not a dictionary word
    assert_eq!((l2, o2), (7, 9));
    assert!(d3 != 0); // "." is its own token and a dictionary word
    assert_eq!((l3, o3), (1, 16));
}

#[test]
fn je_multiple_operands_short_branch() {
    // je 5, 1, 2, 5 in the 2OP variable encoding, branch on true with a
    // short offset of 2: the target equals the next address.
    let code = [0xC1, 0x55, 5, 1, 2, 5, 0xC2, 0xBA];
    let mut zvm = boot(&code);
    let instr = zvm.decode_instruction(CODE).unwrap();
    assert_eq!(instr.opcode, Opcode::OP2_1);
    assert_eq!(instr.operands.len(), 4);
    let b = instr.branch.unwrap();
    assert_eq!(b.condition, 1);
    assert_eq!(b.address, Some(instr.next));
    assert_eq!(instr.next, CODE + 7);
    zvm.handle_instruction(&instr).unwrap();
    assert_eq!(zvm.current_pc(), instr.next);
}

#[test]
fn branch_offsets_zero_and_one_return_from_routine() {
    // call a routine (stored to global 2) whose body is `jz 0 [true +1]`:
    // the branch does not touch the program counter, it returns 1.
    let mut code = vec![0xE0, 0x3F, 0x02, 0x80, 0x12, 0xBA];
    code.resize(0x100, 0xB4); // nops up to the routine
    let mut zvm = {
        let mut mem = story(&code);
        // routine at 0x500 = packed 0x280: 0 locals, jz #0 [branch 0xC1]
        mem[0x500] = 0;
        mem[0x501] = 0x90;
        mem[0x502] = 0x00;
        mem[0x503] = 0xC1;
        Zmachine::new(mem, BaseUI::new(), Options::default()).unwrap()
    };
    zvm.run().unwrap();
    assert_eq!(zvm.global_word(2).unwrap(), 1);
    assert_eq!(zvm.frame_depth(), 1);
}

#[test]
fn save_restore_round_trip_through_execution() {
    // save [branch +2], then one hundred `inc g1`, then quit.
    let mut code = vec![0xB5, 0xC2];
    for _ in 0..100 {
        code.extend_from_slice(&[0x95, 0x11]);
    }
    code.push(0xBA);
    let mut zvm = boot(&code);
    let blob = match zvm.step().unwrap() {
        Step::Save(b) => b,
        other => panic!("expected a save pause, got {:?}", other),
    };
    let saved_depth = zvm.frame_depth();
    zvm.handle_save_result(true).unwrap();
    assert_eq!(zvm.step().unwrap(), Step::Done);
    assert_eq!(zvm.global_word(1).unwrap(), 100);

    zvm.restore(&blob).unwrap();
    // Program counter, frames and dynamic memory are back at the save.
    assert_eq!(zvm.current_pc(), CODE + 2);
    assert_eq!(zvm.frame_depth(), saved_depth);
    assert_eq!(zvm.global_word(1).unwrap(), 0);
    // Running on from the restored state reaches the same end.
    assert_eq!(zvm.step().unwrap(), Step::Done);
    assert_eq!(zvm.global_word(1).unwrap(), 100);
}

#[test]
fn static_memory_is_untouched_and_frames_never_empty() {
    let mut code = vec![0xB5, 0xC2];
    for _ in 0..100 {
        code.extend_from_slice(&[0x95, 0x11]);
    }
    code.push(0xBA);
    let image = story(&code);
    let mut zvm = Zmachine::new(image.clone(), BaseUI::new(), Options::default()).unwrap();
    match zvm.step().unwrap() {
        Step::Save(_) => {}
        other => panic!("expected a save pause, got {:?}", other),
    }
    zvm.handle_save_result(true).unwrap();
    assert_eq!(zvm.step().unwrap(), Step::Done);
    for addr in STATIC_START..image.len() {
        assert_eq!(zvm.peek_byte(addr).unwrap(), image[addr]);
    }
    assert!(zvm.frame_depth() >= 1);
}

#[test]
fn operands_resolve_left_to_right_from_the_stack() {
    let mut zvm = boot(&[0xBA]);
    // Push 5 then 3; `sub sp, sp` must pop 3 first (left operand), then 5.
    zvm.handle_instruction(&effect_instr(Opcode::VAR_232, vec![Operand::Large(5)])).unwrap();
    zvm.handle_instruction(&effect_instr(Opcode::VAR_232, vec![Operand::Large(3)])).unwrap();
    let instr = store_instr(
        Opcode::OP2_21,
        vec![Operand::Variable(0), Operand::Variable(0)],
        0x10 + 4,
    );
    zvm.handle_instruction(&instr).unwrap();
    // 3 - 5 = -2
    assert_eq!(zvm.global_word(4).unwrap(), 0xFFFE);
}

#[test]
fn wrapping_signed_arithmetic() {
    let mut zvm = boot(&[0xBA]);
    assert_eq!(run_store(&mut zvm, Opcode::OP2_20, 2, 3), 5);
    assert_eq!(run_store(&mut zvm, Opcode::OP2_20, 0x7FFF, 1), 0x8000);
    assert_eq!(run_store(&mut zvm, Opcode::OP2_21, 0, 1), 0xFFFF);
    assert_eq!(run_store(&mut zvm, Opcode::OP2_22, 0x4000, 4), 0);
    assert_eq!(run_store(&mut zvm, Opcode::OP2_22, 0xFFFF, 3), 0xFFFD); // -1 * 3
    assert_eq!(run_store(&mut zvm, Opcode::OP2_23, 7, 2), 3);
    assert_eq!(run_store(&mut zvm, Opcode::OP2_23, 0xFFF9, 2), 0xFFFD); // -7 / 2 = -3
    assert_eq!(run_store(&mut zvm, Opcode::OP2_24, 0xFFF9, 2), 0xFFFF); // -7 % 2 = -1
    assert_eq!(run_store(&mut zvm, Opcode::OP2_24, 7, 0xFFFE), 1); // 7 % -2 = 1
    let div0 = store_instr(
        Opcode::OP2_23,
        vec![Operand::Large(1), Operand::Large(0)],
        0x10 + 4,
    );
    assert!(zvm.handle_instruction(&div0).is_err());
}

#[test]
fn random_boundaries() {
    let mut zvm = boot(&[0xBA]);
    let r1 = store_instr(Opcode::VAR_231, vec![Operand::Large(1)], 0x10 + 4);
    zvm.handle_instruction(&r1).unwrap();
    assert_eq!(zvm.global_word(4).unwrap(), 1);
    // A negative range reseeds and stores 0.
    let rn = store_instr(Opcode::VAR_231, vec![Operand::Large(0xFFF6)], 0x10 + 4);
    zvm.handle_instruction(&rn).unwrap();
    assert_eq!(zvm.global_word(4).unwrap(), 0);
    // Zero reseeds from entropy and stores 0.
    let r0 = store_instr(Opcode::VAR_231, vec![Operand::Large(0)], 0x10 + 4);
    zvm.handle_instruction(&r0).unwrap();
    assert_eq!(zvm.global_word(4).unwrap(), 0);
    // A positive range stays within 1..=range.
    for _ in 0..20 {
        let r6 = store_instr(Opcode::VAR_231, vec![Operand::Large(6)], 0x10 + 4);
        zvm.handle_instruction(&r6).unwrap();
        let v = zvm.global_word(4).unwrap();
        assert!(1 <= v && v <= 6);
    }
}

#[test]
fn scan_table_returns_address_of_first_match_or_zero() {
    let mut zvm = boot(&[0xBA]);
    // Fill a word table at the text buffer: 17, 23, 23.
    for (i, v) in [17u16, 23, 23].iter().enumerate() {
        let sw = effect_instr(
            Opcode::VAR_225,
            vec![
                Operand::Large(TEXT_BUF as u16),
                Operand::Large(i as u16),
                Operand::Large(*v),
            ],
        );
        zvm.handle_instruction(&sw).unwrap();
    }
    let scan = store_instr(
        Opcode::VAR_247,
        vec![
            Operand::Large(23),
            Operand::Large(TEXT_BUF as u16),
            Operand::Large(3),
        ],
        0x10 + 4,
    );
    zvm.handle_instruction(&scan).unwrap();
    // The address of the first 23, not its index.
    assert_eq!(zvm.global_word(4).unwrap(), (TEXT_BUF + 2) as u16);
    let miss = store_instr(
        Opcode::VAR_247,
        vec![
            Operand::Large(99),
            Operand::Large(TEXT_BUF as u16),
            Operand::Large(3),
        ],
        0x10 + 4,
    );
    zvm.handle_instruction(&miss).unwrap();
    assert_eq!(zvm.global_word(4).unwrap(), 0);
}

#[test]
fn object_tree_move_and_reinsert_restores_parent() {
    let mut zvm = boot(&[0xBA]);
    assert_eq!(zvm.get_parent(2).unwrap(), 1);
    assert_eq!(zvm.get_child(1).unwrap(), 2);
    assert_eq!(zvm.get_sibling(2).unwrap(), 3);

    zvm.remove_obj(2).unwrap();
    assert_eq!(zvm.get_parent(2).unwrap(), 0);
    assert_eq!(zvm.get_sibling(2).unwrap(), 0);
    assert_eq!(zvm.get_child(1).unwrap(), 3);

    zvm.insert_obj(2, 3).unwrap();
    assert_eq!(zvm.get_parent(2).unwrap(), 3);
    assert_eq!(zvm.get_child(3).unwrap(), 2);

    // Back into the original parent: the move is restored, the moved
    // object now leading the child list.
    zvm.insert_obj(2, 1).unwrap();
    assert_eq!(zvm.get_parent(2).unwrap(), 1);
    assert_eq!(zvm.get_child(1).unwrap(), 2);
    assert_eq!(zvm.get_sibling(2).unwrap(), 3);
    assert_eq!(zvm.get_parent(3).unwrap(), 1);
}

#[test]
fn attributes_and_their_range() {
    let mut zvm = boot(&[0xBA]);
    assert_eq!(zvm.test_attr(2, 7).unwrap(), 0);
    zvm.set_attr(2, 7).unwrap();
    assert_eq!(zvm.test_attr(2, 7).unwrap(), 1);
    zvm.clear_attr(2, 7).unwrap();
    assert_eq!(zvm.test_attr(2, 7).unwrap(), 0);
    // v3 has 32 attributes; 32 itself is out of range.
    assert_eq!(zvm.test_attr(2, 32).unwrap_err(), ZmachineError::AttributeRange);
}

#[test]
fn properties_present_and_defaulted() {
    let mut zvm = boot(&[0xBA]);
    assert_eq!(zvm.get_prop_value(1, 5).unwrap(), 0x1234);
    assert_eq!(zvm.get_prop_value(2, 6).unwrap(), 0x0042);
    // Property 9 is absent everywhere: the (zeroed) default comes back.
    assert_eq!(zvm.get_prop_value(1, 9).unwrap(), 0);
    assert_eq!(zvm.get_prop_addr(1, 9).unwrap(), 0);
    let addr = zvm.get_prop_addr(1, 5).unwrap();
    assert!(addr != 0);
    assert_eq!(zvm.get_prop_len(addr as usize).unwrap(), 2);
    assert_eq!(zvm.get_prop_len(0).unwrap(), 0); // the null payload address
    zvm.put_prop(1, 5, 0x5678).unwrap();
    assert_eq!(zvm.get_prop_value(1, 5).unwrap(), 0x5678);
    assert_eq!(zvm.get_next_prop(1, 0).unwrap(), 5);
}

#[test]
fn boot_rejects_bad_images() {
    let tiny = vec![3u8; 10];
    let err = match Zmachine::new(tiny, BaseUI::new(), Options::default()) {
        Err(e) => e,
        Ok(_) => panic!("a ten-byte image booted"),
    };
    assert_eq!(err, ZmachineError::MalformedImage);
    let mut bad_version = story(&[0xBA]);
    bad_version[0] = 9;
    let err = match Zmachine::new(bad_version, BaseUI::new(), Options::default()) {
        Err(e) => e,
        Ok(_) => panic!("version 9 booted"),
    };
    assert_eq!(err, ZmachineError::UnsupportedVersion);
    let mut v0 = story(&[0xBA]);
    v0[0] = 0;
    let err = match Zmachine::new(v0, BaseUI::new(), Options::default()) {
        Err(e) => e,
        Ok(_) => panic!("version 0 booted"),
    };
    assert_eq!(err, ZmachineError::UnsupportedVersion);
}

#[test]
fn restore_rejects_a_foreign_save() {
    let mut zvm = boot(&[0xBA]);
    assert!(zvm.load_savestate(&[1, 2, 3, 4]).is_err());
}

#[test]
fn dictionary_and_room_accessors() {
    let zvm = boot(&[0xBA]);
    let words = zvm.get_dictionary();
    let strs: Vec<String> = words.iter().map(|w| w.iter().collect()).collect();
    assert!(strs.contains(&"look".to_string()));
    assert!(strs.contains(&"at".to_string()));
    let (num, name) = zvm.get_current_room().unwrap();
    assert_eq!(num, 1);
    let name: String = name.into_iter().collect();
    assert_eq!(name, "West of House");
    let tree = zvm.get_object_tree().unwrap();
    assert_eq!(tree.children.len(), 1);
    assert_eq!(tree.children[0].number, 1);
    assert_eq!(tree.children[0].children.len(), 2);
    let rendered = tree.to_string();
    assert!(rendered.contains("West of House (1)"));
    assert!(rendered.contains("mailbox (2)"));
}

#[test]
fn stack_underflow_is_fatal() {
    let mut zvm = boot(&[0xBA]);
    // Popping an empty stack through a variable-0 operand fails.
    let instr = store_instr(Opcode::OP2_20, vec![Operand::Variable(0), Operand::Large(1)], 0x14);
    assert_eq!(
        zvm.handle_instruction(&instr).unwrap_err(),
        ZmachineError::StackUnderflow
    );
    // Returning past the sentinel frame fails too.
    let ret = effect_instr(Opcode::OP0_176, vec![]);
    assert_eq!(zvm.handle_instruction(&ret).unwrap_err(), ZmachineError::StackUnderflow);
}

#[test]
fn writes_into_static_memory_are_rejected() {
    let mut zvm = boot(&[0xBA]);
    let sb = effect_instr(
        Opcode::VAR_226,
        vec![
            Operand::Large(STATIC_START as u16),
            Operand::Large(0),
            Operand::Large(1),
        ],
    );
    assert_eq!(zvm.handle_instruction(&sb).unwrap_err(), ZmachineError::BadAddress);
}

#[test]
fn an_unimplemented_opcode_is_unknown() {
    let mut zvm = boot(&[0xBA]);
    let nop_like = effect_instr(Opcode::OP0_190, vec![]);
    assert_eq!(
        zvm.handle_instruction(&nop_like).unwrap_err(),
        ZmachineError::UnknownOpcode
    );
}

#[test]
fn shifts_and_increments() {
    let mut zvm = boot(&[0xBA]);
    assert_eq!(run_store(&mut zvm, Opcode::EXT_1002, 0x0001, 4), 0x0010);
    assert_eq!(run_store(&mut zvm, Opcode::EXT_1002, 0x8000, 0xFFFF), 0x4000); // logical right
    assert_eq!(run_store(&mut zvm, Opcode::EXT_1003, 0x8000, 0xFFFF), 0xC000); // arithmetic right
    // inc_chk: global 5 runs 0 -> 1, which is > 0, so the result is 1.
    let instr = store_instr(
        Opcode::OP2_5,
        vec![Operand::Large(0x15), Operand::Large(0)],
        0x10 + 4,
    );
    // inc_chk branches rather than stores; drive it with a branch that
    // falls through either way.
    let instr = Instruction {
        store: None,
        branch: Some(encrusted_heart::instruction::Branch {
            condition: 1,
            address: Some(CODE + 1),
            returns: None,
        }),
        ..instr
    };
    zvm.handle_instruction(&instr).unwrap();
    assert_eq!(zvm.global_word(5).unwrap(), 1);
}

#[test]
fn copy_table_zeroes_and_copies() {
    let mut zvm = boot(&[0xBA]);
    for (i, v) in [1u16, 2, 3].iter().enumerate() {
        let sw = effect_instr(
            Opcode::VAR_225,
            vec![
                Operand::Large(TEXT_BUF as u16),
                Operand::Large(i as u16),
                Operand::Large(*v),
            ],
        );
        zvm.handle_instruction(&sw).unwrap();
    }
    // Copy six bytes from the text buffer into the parse buffer.
    let cp = effect_instr(
        Opcode::VAR_253,
        vec![
            Operand::Large(TEXT_BUF as u16),
            Operand::Large(PARSE_BUF as u16),
            Operand::Large(6),
        ],
    );
    zvm.handle_instruction(&cp).unwrap();
    assert_eq!(zvm.peek_word(PARSE_BUF).unwrap(), 1);
    assert_eq!(zvm.peek_word(PARSE_BUF + 2).unwrap(), 2);
    // A null second table zeroes the source region.
    let zero = effect_instr(
        Opcode::VAR_253,
        vec![
            Operand::Large(TEXT_BUF as u16),
            Operand::Large(0),
            Operand::Large(6),
        ],
    );
    zvm.handle_instruction(&zero).unwrap();
    assert_eq!(zvm.peek_word(TEXT_BUF).unwrap(), 0);
    assert_eq!(zvm.peek_word(TEXT_BUF + 4).unwrap(), 0);
}

#[test]
fn memory_output_stream_collects_zscii() {
    let mut zvm = boot(&[0xBA]);
    // Select stream 3 with a table, print, deselect: the table holds the
    // byte count and then the ZSCII bytes.
    let open = effect_instr(
        Opcode::VAR_243,
        vec![Operand::Large(3), Operand::Large(TEXT_BUF as u16)],
    );
    zvm.handle_instruction(&open).unwrap();
    let p = effect_instr(Opcode::VAR_230, vec![Operand::Large(0xFFFB)]); // print_num -5
    zvm.handle_instruction(&p).unwrap();
    let close = effect_instr(Opcode::VAR_243, vec![Operand::Large(0xFFFD)]);
    zvm.handle_instruction(&close).unwrap();
    assert_eq!(zvm.peek_word(TEXT_BUF).unwrap(), 2);
    assert_eq!(zvm.peek_byte(TEXT_BUF + 2).unwrap(), b'-');
    assert_eq!(zvm.peek_byte(TEXT_BUF + 3).unwrap(), b'5');
}

#[test]
fn throw_unwinds_to_the_caught_frame() {
    // main calls outer (stored to g2); outer calls a routine that throws
    // back to depth 2 with value 9, so outer's own store receives 9.
    let mut code = vec![0xE0, 0x3F, 0x02, 0x80, 0x12, 0xBA];
    code.resize(0x100, 0xB4);
    let mut mem = story(&code);
    // outer at 0x500 (packed 0x280): no locals; call inner, store to
    // local... store to stack; then return the popped value.
    // call inner (packed 0x288 -> 0x510), store to sp, then ret_popped.
    mem[0x500] = 0;
    mem[0x501..0x506].copy_from_slice(&[0xE0, 0x3F, 0x02, 0x88, 0x00]);
    mem[0x506] = 0xB8; // ret_popped
    // inner at 0x510: no locals; throw 9, frame 2.
    mem[0x510] = 0;
    mem[0x511..0x515].copy_from_slice(&[0x1C, 9, 2, 0x00]);
    // 0x1C: long form 2OP opcode 28 with two small operands
    let mut zvm = Zmachine::new(mem, BaseUI::new(), Options::default()).unwrap();
    zvm.run().unwrap();
    assert_eq!(zvm.global_word(2).unwrap(), 9);
    assert_eq!(zvm.frame_depth(), 1);
}

#[test]
fn print_unicode_emits_the_code_point() {
    let mut zvm = boot(&[0xBA]);
    let p = effect_instr(Opcode::EXT_1011, vec![Operand::Large(0x263A)]);
    zvm.handle_instruction(&p).unwrap();
    let runs = zvm.ui.drain_output();
    let all: String = runs.iter().map(|r| r.content.clone()).collect();
    assert_eq!(all, "\u{263A}");
}

#[test]
fn status_line_clock_shape() {
    // flags1 bit 1 selects the clock form of the status line.
    let mut mem = story(&[0xBA]);
    mem[0x01] |= 0x02;
    w(&mut mem, GLOBALS + 2, 15); // hours
    w(&mut mem, GLOBALS + 4, 5); // minutes
    let zvm = Zmachine::new(mem, BaseUI::new(), Options::default()).unwrap();
    let (_, right) = zvm.get_status().unwrap();
    let right: String = right.into_iter().collect();
    assert_eq!(right, "03:05 PM");
}

#[test]
fn random_of_one_leaves_the_generator_alone() {
    // Two machines with the same seed: interposing random(1) calls must
    // not shift the later draw sequence.
    let mut a = boot(&[0xBA]);
    let mut b = boot(&[0xBA]);
    let draw = |z: &mut Zmachine<BaseUI>, range: u16| -> u16 {
        let i = store_instr(Opcode::VAR_231, vec![Operand::Large(range)], 0x10 + 4);
        z.handle_instruction(&i).unwrap();
        z.global_word(4).unwrap()
    };
    let x1 = draw(&mut a, 1000);
    assert_eq!(draw(&mut b, 1), 1);
    assert_eq!(draw(&mut b, 1), 1);
    let y1 = draw(&mut b, 1000);
    assert_eq!(x1, y1);
    let x2 = draw(&mut a, 1000);
    assert_eq!(draw(&mut b, 1), 1);
    let y2 = draw(&mut b, 1000);
    assert_eq!(x2, y2);
}

#[test]
fn typed_input_is_lowercased_beyond_ascii() {
    let mut code = vec![0xB2];
    code.extend_from_slice(&ztext(">"));
    code.extend_from_slice(&[0xE4, 0x0F, 0x03, 0x20, 0x03, 0x40]);
    code.push(0xBA);
    let mut zvm = boot(&code);
    assert_eq!(zvm.step().unwrap(), Step::ReadLine);
    zvm.handle_input(chars_of_str("LOOK Ät")).unwrap();
    // The text buffer holds the lowercased ZSCII bytes: "look ät".
    assert_eq!(zvm.peek_byte(TEXT_BUF + 1).unwrap(), b'l');
    assert_eq!(zvm.peek_byte(TEXT_BUF + 2).unwrap(), b'o');
    assert_eq!(zvm.peek_byte(TEXT_BUF + 3).unwrap(), b'o');
    assert_eq!(zvm.peek_byte(TEXT_BUF + 4).unwrap(), b'k');
    assert_eq!(zvm.peek_byte(TEXT_BUF + 5).unwrap(), b' ');
    assert_eq!(zvm.peek_byte(TEXT_BUF + 6).unwrap(), 155); // 'ä' in ZSCII
    assert_eq!(zvm.peek_byte(TEXT_BUF + 7).unwrap(), b't');
    // And the first token resolves in the dictionary despite the case.
    assert!(zvm.peek_word(PARSE_BUF + 2).unwrap() != 0);
}

#[test]
fn null_object_property_reads_store_zero() {
    let mut zvm = boot(&[0xBA]);
    let gp = store_instr(
        Opcode::OP2_17,
        vec![Operand::Large(0), Operand::Large(5)],
        0x10 + 4,
    );
    zvm.handle_instruction(&gp).unwrap();
    assert_eq!(zvm.global_word(4).unwrap(), 0);
    let ga = store_instr(
        Opcode::OP2_18,
        vec![Operand::Large(0), Operand::Large(5)],
        0x10 + 4,
    );
    zvm.handle_instruction(&ga).unwrap();
    assert_eq!(zvm.global_word(4).unwrap(), 0);
}
