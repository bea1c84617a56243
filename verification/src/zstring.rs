//! The Z-string codec: packed 5-bit Z-characters, three per 16-bit word with
//! a stop bit, decoded through three shifting alphabets, abbreviation
//! substitution, and 10-bit ZSCII escapes.

use crate::buffer::{word_at, word_hi, word_lo, Buffer};
use crate::zscii::{spec_from_char, spec_to_char, ZChar};
use crate::ZmachineError;
use vstd::prelude::*;

verus! {

/// The three alphabet rows, 32 Z-characters each. Positions 0..=5 of each
/// row are placeholders for the special codes; row 2 position 6 is the
/// 10-bit escape and position 7 is newline.
pub struct Alphabet {
    pub a0: Vec<char>,
    pub a1: Vec<char>,
    pub a2: Vec<char>,
}

impl Alphabet {
    pub open spec fn wf(&self) -> bool {
        &&& self.a0@.len() == 32
        &&& self.a1@.len() == 32
        &&& self.a2@.len() == 32
    }

    pub open spec fn spec_row(&self, n: int) -> Seq<char> {
        if n == 0 {
            self.a0@
        } else if n == 1 {
            self.a1@
        } else {
            self.a2@
        }
    }

    /// The Z-character at position `z` of row `n`.
    pub fn lookup(&self, n: u8, z: u8) -> (r: char)
        requires
            self.wf(),
            n < 3,
            z < 32,
        ensures
            r == self.spec_row(n as int)[z as int],
    {
        if n == 0 {
            self.a0[z as usize]
        } else if n == 1 {
            self.a1[z as usize]
        } else {
            self.a2[z as usize]
        }
    }

    /// The v1-v4 alphabet fixed by the Z-machine standard.
    pub fn default() -> (r: Alphabet)
        ensures
            r.wf(),
            r.a0@ == " .....abcdefghijklmnopqrstuvwxyz"@,
            r.a1@ == " .....ABCDEFGHIJKLMNOPQRSTUVWXYZ"@,
            r.a2@ == " ......\n0123456789.,!?_#'\"/\\-:()"@,
    {
        proof {
            reveal_strlit(" .....abcdefghijklmnopqrstuvwxyz");
            reveal_strlit(" .....ABCDEFGHIJKLMNOPQRSTUVWXYZ");
            reveal_strlit(" ......\n0123456789.,!?_#'\"/\\-:()");
        }
        Alphabet {
            a0: chars_of_str(" .....abcdefghijklmnopqrstuvwxyz"),
            a1: chars_of_str(" .....ABCDEFGHIJKLMNOPQRSTUVWXYZ"),
            a2: chars_of_str(" ......\n0123456789.,!?_#'\"/\\-:()"),
        }
    }

    /// A custom v5+ alphabet read from the story's alphabet table: 26
    /// characters per row after the fixed placeholder prefixes (row 2 skips
    /// two table bytes accounted for by its longer prefix).
    pub fn from_memory(mem: &Buffer, alphabet_addr: usize) -> (r: Result<
        Alphabet,
        ZmachineError,
    >)
        ensures
            r is Ok ==> {
                &&& r->Ok_0.wf()
                &&& alphabet_addr + 78 <= mem@.len()
                &&& forall|i: int|
                    0 <= i < 26 ==> r->Ok_0.a0@[6 + i] == #[trigger] mem@[alphabet_addr + i] as char
                &&& forall|i: int|
                    0 <= i < 26 ==> r->Ok_0.a1@[6 + i] == #[trigger] mem@[alphabet_addr + 26 + i] as char
                &&& forall|i: int|
                    0 <= i < 24 ==> r->Ok_0.a2@[8 + i] == #[trigger] mem@[alphabet_addr + 54 + i] as char
                &&& r->Ok_0.a0@.subrange(0, 6) == " ....."@
                &&& r->Ok_0.a1@.subrange(0, 6) == " ....."@
                &&& r->Ok_0.a2@.subrange(0, 8) == " ......\n"@
            },
            r is Err ==> alphabet_addr + 78 > mem@.len(),
    {
        proof {
            reveal_strlit(" .....");
            reveal_strlit(" ......\n");
        }
        let n = mem.len();
        if alphabet_addr > n || n - alphabet_addr < 78 {
            return Err(ZmachineError::BadAddress);
        }
        let mut a0 = chars_of_str(" .....");
        let mut a1 = chars_of_str(" .....");
        let mut a2 = chars_of_str(" ......\n");
        let ghost p0 = a0@;
        let ghost p1 = a1@;
        let ghost p2 = a2@;
        let mut i: usize = 0;
        while i < 26
            invariant
                i <= 26,
                alphabet_addr + 78 <= mem@.len(),
                alphabet_addr + 78 <= usize::MAX,
                p0.len() == 6,
                a0@.len() == 6 + i,
                a0@.subrange(0, 6) == p0,
                forall|j: int| 0 <= j < i ==> a0@[6 + j] == #[trigger] mem@[alphabet_addr + j] as char,
            decreases 26 - i,
        {
            let b = mem.read_byte(alphabet_addr + i)?;
            a0.push(b as char);
            proof {
                assert(a0@.subrange(0, 6) =~= p0);
            }
            i = i + 1;
        }
        let mut i: usize = 0;
        while i < 26
            invariant
                i <= 26,
                alphabet_addr + 78 <= mem@.len(),
                alphabet_addr + 78 <= usize::MAX,
                p1.len() == 6,
                a1@.len() == 6 + i,
                a1@.subrange(0, 6) == p1,
                forall|j: int| 0 <= j < i ==> a1@[6 + j] == #[trigger] mem@[alphabet_addr + 26 + j] as char,
            decreases 26 - i,
        {
            let b = mem.read_byte(alphabet_addr + 26 + i)?;
            a1.push(b as char);
            proof {
                assert(a1@.subrange(0, 6) =~= p1);
            }
            i = i + 1;
        }
        let mut i: usize = 0;
        while i < 24
            invariant
                i <= 24,
                alphabet_addr + 78 <= mem@.len(),
                alphabet_addr + 78 <= usize::MAX,
                p2.len() == 8,
                a2@.len() == 8 + i,
                a2@.subrange(0, 8) == p2,
                forall|j: int| 0 <= j < i ==> a2@[8 + j] == #[trigger] mem@[alphabet_addr + 54 + j] as char,
            decreases 24 - i,
        {
            let b = mem.read_byte(alphabet_addr + 54 + i)?;
            a2.push(b as char);
            proof {
                assert(a2@.subrange(0, 8) =~= p2);
            }
            i = i + 1;
        }
        Ok(Alphabet { a0, a1, a2 })
    }
}

/// The characters of a string, as a vector.
pub fn chars_of_str(s: &str) -> (r: Vec<char>)
    ensures
        r@ == s@,
{
    let n = s.unicode_len();
    let mut out: Vec<char> = Vec::new();
    let mut i: usize = 0;
    while i < n
        invariant
            n == s@.len(),
            i <= n,
            out@ == s@.take(i as int),
        decreases n - i,
    {
        let c = s.get_char(i);
        out.push(c);
        proof {
            assert(out@ =~= s@.take(i + 1));
        }
        i = i + 1;
    }
    proof {
        assert(out@ =~= s@);
    }
    out
}

/// The Z-characters packed into the words at `addr`, with the address just
/// past the terminating word; `None` when the string runs off the image.
pub open spec fn spec_collect(mem: Seq<u8>, addr: int) -> Option<(Seq<u8>, int)>
    decreases mem.len() - addr,
{
    if addr < 0 || addr + 2 > mem.len() {
        None
    } else {
        let w = word_at(mem, addr);
        let three = seq![((w >> 10) & 31) as u8, ((w >> 5) & 31) as u8, (w & 31) as u8];
        if w >= 0x8000 {
            Some((three, addr + 2))
        } else {
            match spec_collect(mem, addr + 2) {
                None => None,
                Some((rest, end)) => Some((three + rest, end)),
            }
        }
    }
}

/// Read the raw Z-characters of the string at `addr`, and the address of the
/// byte after its last word.
pub fn collect_zchars(mem: &Buffer, addr: usize) -> (r: Result<(Vec<u8>, usize), ZmachineError>)
    ensures
        match spec_collect(mem@, addr as int) {
            None => r is Err,
            Some((zs, end)) => match r {
                Ok(p) => p.0@ == zs && p.1 == end,
                Err(_) => false,
            },
        },
        r is Ok ==> forall|i: int| 0 <= i < r->Ok_0.0@.len() ==> r->Ok_0.0@[i] < 32,
{
    let mut out: Vec<u8> = Vec::new();
    let mut index = addr;
    let memlen = mem.len();
    loop
        invariant
            memlen == mem@.len(),
            index >= addr,
            forall|i: int| 0 <= i < out@.len() ==> out@[i] < 32,
            match spec_collect(mem@, addr as int) {
                None => spec_collect(mem@, index as int) is None,
                Some((zs, end)) => match spec_collect(mem@, index as int) {
                    None => false,
                    Some((rest, e2)) => zs == out@ + rest && end == e2,
                },
            },
        decreases mem@.len() - index,
    {
        let w = match mem.read_word(index) {
            Ok(w) => w,
            Err(e) => {
                return Err(e);
            },
        };
        proof {
            assert(((w >> 10) & 31) < 32) by (bit_vector);
            assert(((w >> 5) & 31) < 32) by (bit_vector);
            assert((w & 31) < 32) by (bit_vector);
        }
        out.push(((w >> 10) & 31) as u8);
        out.push(((w >> 5) & 31) as u8);
        out.push((w & 31) as u8);
        index = index + 2;
        if w >= 0x8000 {
            proof {
                let zs_end = spec_collect(mem@, addr as int);
                assert(zs_end is Some);
                assert(zs_end->Some_0.0 =~= out@);
            }
            return Ok((out, index));
        }
        proof {
            if spec_collect(mem@, addr as int) is Some {
                let (zs, end) = spec_collect(mem@, addr as int)->Some_0;
                let (rest, e2) = spec_collect(mem@, (index - 2) as int)->Some_0;
                assert(zs =~= out@ + spec_collect(mem@, index as int)->Some_0.0);
            }
        }
    }
}

/// The decoder's state between Z-characters.
#[derive(Copy, Clone, Eq, PartialEq, Debug, Structural)]
pub enum DecState {
    /// Reading from alphabet row 0, 1 or 2; rows 1 and 2 last for one
    /// character only.
    Alpha(u8),
    /// The previous Z-character was an abbreviation shift 1..=3.
    Abbrev(u8),
    /// The previous Z-characters began a 10-bit literal.
    Ten1,
    Ten2(u8),
}

/// The character a 10-bit escape denotes.
pub open spec fn spec_tenbit(hi: u8, lo: u8, table: Seq<char>) -> char {
    let code = hi * 32 + lo;
    if code <= 255 {
        spec_to_char(code as u8, table)
    } else {
        '?'
    }
}

/// One step of the decoding state machine, ignoring abbreviation expansion:
/// the next state and the characters emitted.
pub open spec fn spec_step(st: DecState, z: u8, alpha: &Alphabet, table: Seq<char>) -> (
    DecState,
    Seq<char>,
) {
    match st {
        DecState::Alpha(n) => {
            if 1 <= z <= 3 {
                (DecState::Abbrev(z), Seq::empty())
            } else if z == 4 {
                (DecState::Alpha(1), Seq::empty())
            } else if z == 5 {
                (DecState::Alpha(2), Seq::empty())
            } else if z == 6 && n == 2 {
                (DecState::Ten1, Seq::empty())
            } else {
                (DecState::Alpha(0), seq![alpha.spec_row(n as int)[z as int]])
            }
        },
        DecState::Abbrev(_) => (DecState::Alpha(0), Seq::empty()),
        DecState::Ten1 => (DecState::Ten2(z), Seq::empty()),
        DecState::Ten2(hi) => (DecState::Alpha(0), seq![spec_tenbit(hi, z, table)]),
    }
}

/// The state machine folded over a Z-character sequence, with abbreviations
/// expanding to nothing (they never occur in freshly encoded text).
pub open spec fn spec_decode_zchars(
    zs: Seq<u8>,
    st: DecState,
    alpha: &Alphabet,
    table: Seq<char>,
) -> Seq<char>
    decreases zs.len(),
{
    if zs.len() == 0 {
        Seq::empty()
    } else {
        let (st2, out) = spec_step(st, zs[0], alpha, table);
        out + spec_decode_zchars(zs.skip(1), st2, alpha, table)
    }
}

/// No abbreviation shifts occur in the sequence.
pub open spec fn spec_no_abbrevs(zs: Seq<u8>) -> bool {
    forall|i: int| 0 <= i < zs.len() ==> !(1 <= #[trigger] zs[i] <= 3)
}

/// The abbreviation-table index a shift 1..=3 and its following
/// Z-character select.
pub open spec fn spec_abbrev_index(shift: u8, z: u8) -> u8 {
    (((shift - 1) * 32 + z) as u8)
}

/// The first abbreviation a decode from `st` would expand, walking the
/// state machine until a shift 1..=3 is followed by its index character;
/// `None` when decoding expands no abbreviation.
pub open spec fn spec_first_abbrev(
    zs: Seq<u8>,
    st: DecState,
    alpha: &Alphabet,
    table: Seq<char>,
) -> Option<u8>
    decreases zs.len(),
{
    if zs.len() == 0 {
        None
    } else {
        match st {
            DecState::Abbrev(shift) => Some(spec_abbrev_index(shift, zs[0])),
            _ => {
                let (st2, out) = spec_step(st, zs[0], alpha, table);
                spec_first_abbrev(zs.skip(1), st2, alpha, table)
            },
        }
    }
}

/// The pattern `RecursiveAbbreviation` refuses: the first abbreviation the
/// string expands (not already being expanded, with its table entry
/// readable) names an entry whose own text immediately re-enters the same
/// abbreviation.
pub open spec fn spec_first_self_ref(
    mem: Seq<u8>,
    zs: Seq<u8>,
    stack: Seq<u8>,
    depth: u8,
    abbrev_table: int,
    alpha: &Alphabet,
    table: Seq<char>,
) -> bool {
    match spec_first_abbrev(zs, DecState::Alpha(0), alpha, table) {
        None => false,
        Some(idx) => !stack.contains(idx) && depth >= 1 && abbrev_table + 2 * idx + 2
            <= mem.len() && (match spec_collect(
            mem,
            2 * (word_at(mem, abbrev_table + 2 * idx) as int),
        ) {
            None => false,
            Some((azs, e2)) => spec_first_abbrev(azs, DecState::Alpha(0), alpha, table) == Some(
                idx,
            ),
        }),
    }
}

/// Decode the Z-string at `addr`: its text and the address after its last
/// word. Abbreviations recurse through the abbreviation table; one that is
/// already being expanded fails with `RecursiveAbbreviation`.
pub fn decode_zstring(
    mem: &Buffer,
    addr: usize,
    alpha: &Alphabet,
    abbrev_table: usize,
    table: &[char],
) -> (r: Result<(Vec<char>, usize), ZmachineError>)
    requires
        alpha.wf(),
    ensures
        match spec_collect(mem@, addr as int) {
            None => r is Err,
            Some((zs, end)) => {
                &&& (r is Ok ==> r->Ok_0.1 == end)
                &&& (spec_no_abbrevs(zs) ==> r is Ok && r->Ok_0.0@ == spec_decode_zchars(
                    zs,
                    DecState::Alpha(0),
                    alpha,
                    table@,
                ))
                // An abbreviation whose table entry re-enters the same
                // abbreviation cannot expand: decoding fails instead of
                // looping.
                &&& (spec_first_self_ref(
                    mem@,
                    zs,
                    Seq::<u8>::empty(),
                    97,
                    abbrev_table as int,
                    alpha,
                    table@,
                ) ==> r == Err::<(Vec<char>, usize), ZmachineError>(
                    ZmachineError::RecursiveAbbreviation,
                ))
                // A leading abbreviation expands to its entry's own text,
                // found at twice the table's stored word: the decoded
                // characters are the entry's decoding followed by the
                // decoding of the rest.
                &&& ((zs.len() >= 2 && 1 <= zs[0] <= 3 && spec_no_abbrevs(zs.skip(2))
                    && abbrev_table + 2 * spec_abbrev_index(zs[0], zs[1]) + 2 <= mem@.len() && (
                match spec_collect(
                    mem@,
                    2 * (word_at(
                        mem@,
                        abbrev_table + 2 * spec_abbrev_index(zs[0], zs[1]),
                    ) as int),
                ) {
                    None => false,
                    Some((azs, e2)) => spec_no_abbrevs(azs),
                })) ==> {
                    let azs = spec_collect(
                        mem@,
                        2 * (word_at(
                            mem@,
                            abbrev_table + 2 * spec_abbrev_index(zs[0], zs[1]),
                        ) as int),
                    )->Some_0.0;
                    &&& r is Ok
                    &&& r->Ok_0.0@ == spec_decode_zchars(azs, DecState::Alpha(0), alpha, table@)
                        + spec_decode_zchars(zs.skip(2), DecState::Alpha(0), alpha, table@)
                })
            },
        },
{
    let mut stack: Vec<u8> = Vec::new();
    let r = decode_zstring_impl(mem, addr, alpha, abbrev_table, table, &mut stack, 97);
    proof {
        assert(forall|x: u8| !Seq::<u8>::empty().contains(x));
    }
    r
}

#[verifier::loop_isolation(false)]
#[verifier::rlimit(100)]
#[verifier::spinoff_prover]
fn decode_zstring_impl(
    mem: &Buffer,
    addr: usize,
    alpha: &Alphabet,
    abbrev_table: usize,
    table: &[char],
    stack: &mut Vec<u8>,
    depth: u8,
) -> (r: Result<(Vec<char>, usize), ZmachineError>)
    requires
        alpha.wf(),
    ensures
        final(stack)@ == old(stack)@,
        match spec_collect(mem@, addr as int) {
            None => r is Err,
            Some((zs, end)) => {
                &&& (r is Ok ==> r->Ok_0.1 == end)
                &&& (spec_no_abbrevs(zs) ==> r is Ok && r->Ok_0.0@ == spec_decode_zchars(
                    zs,
                    DecState::Alpha(0),
                    alpha,
                    table@,
                ))
                // An abbreviation already being expanded is refused rather
                // than followed into a loop.
                &&& match spec_first_abbrev(zs, DecState::Alpha(0), alpha, table@) {
                    None => true,
                    Some(idx) => old(stack)@.contains(idx) ==> r == Err::<
                        (Vec<char>, usize),
                        ZmachineError,
                    >(ZmachineError::RecursiveAbbreviation),
                }
                // An entry that immediately re-enters its own abbreviation
                // cannot expand either.
                &&& (spec_first_self_ref(
                    mem@,
                    zs,
                    old(stack)@,
                    depth,
                    abbrev_table as int,
                    alpha,
                    table@,
                ) ==> r == Err::<(Vec<char>, usize), ZmachineError>(
                    ZmachineError::RecursiveAbbreviation,
                ))
                // A leading abbreviation expands to its entry's own text:
                // the entry's byte address is twice the stored word, and
                // the decoded characters are the entry's decoding followed
                // by the decoding of the rest.
                &&& ((zs.len() >= 2 && 1 <= zs[0] <= 3 && spec_no_abbrevs(zs.skip(2)) && !old(
                    stack,
                )@.contains(spec_abbrev_index(zs[0], zs[1])) && depth >= 1 && abbrev_table + 2
                    * spec_abbrev_index(zs[0], zs[1]) + 2 <= mem@.len() && (match spec_collect(
                    mem@,
                    2 * (word_at(
                        mem@,
                        abbrev_table + 2 * spec_abbrev_index(zs[0], zs[1]),
                    ) as int),
                ) {
                    None => false,
                    Some((azs, e2)) => spec_no_abbrevs(azs),
                })) ==> {
                    let azs = spec_collect(
                        mem@,
                        2 * (word_at(
                            mem@,
                            abbrev_table + 2 * spec_abbrev_index(zs[0], zs[1]),
                        ) as int),
                    )->Some_0.0;
                    &&& r is Ok
                    &&& r->Ok_0.0@ == spec_decode_zchars(azs, DecState::Alpha(0), alpha, table@)
                        + spec_decode_zchars(zs.skip(2), DecState::Alpha(0), alpha, table@)
                })
            },
        },
    decreases depth,
{
    let (zs, end) = collect_zchars(mem, addr)?;
    let _memlen = mem.len();
    let ghost zs0 = zs@;
    let ghost first0 = spec_first_abbrev(zs0, DecState::Alpha(0), alpha, table@);
    let ghost hpre = zs0.len() >= 2 && 1 <= zs0[0] <= 3 && spec_no_abbrevs(zs0.skip(2)) && !old(
        stack,
    )@.contains(spec_abbrev_index(zs0[0], zs0[1])) && depth >= 1 && abbrev_table + 2
        * spec_abbrev_index(zs0[0], zs0[1]) + 2 <= mem@.len() && (match spec_collect(
        mem@,
        2 * (word_at(mem@, abbrev_table + 2 * spec_abbrev_index(zs0[0], zs0[1])) as int),
    ) {
        None => false,
        Some((azs, e2)) => spec_no_abbrevs(azs),
    });
    let ghost azs_dec = if hpre {
        spec_decode_zchars(
            spec_collect(
                mem@,
                2 * (word_at(mem@, abbrev_table + 2 * spec_abbrev_index(zs0[0], zs0[1])) as int),
            )->Some_0.0,
            DecState::Alpha(0),
            alpha,
            table@,
        )
    } else {
        Seq::<char>::empty()
    };
    let ghost mut expanded = false;
    let mut out: Vec<char> = Vec::new();
    let mut st = DecState::Alpha(0);
    let mut i: usize = 0;
    let n = zs.len();
    proof {
        assert(zs0.skip(0) =~= zs0);
        assert(out@ + spec_decode_zchars(zs0, DecState::Alpha(0), alpha, table@)
            =~= spec_decode_zchars(zs0, DecState::Alpha(0), alpha, table@));
    }
    while i < n
        invariant
            alpha.wf(),
            n == zs@.len(),
            zs@ == zs0,
            spec_collect(mem@, addr as int) == Some::<(Seq<u8>, int)>((zs0, end as int)),
            i <= n,
            stack@ == old(stack)@,
            forall|k: int| 0 <= k < zs@.len() ==> zs@[k] < 32,
            match st {
                DecState::Alpha(a) => a <= 2,
                DecState::Abbrev(a) => 1 <= a <= 3,
                _ => true,
            },
            spec_no_abbrevs(zs0) ==> !(st is Abbrev),
            spec_no_abbrevs(zs0) ==> spec_decode_zchars(zs0, DecState::Alpha(0), alpha, table@)
                == out@ + spec_decode_zchars(zs0.skip(i as int), st, alpha, table@),
            // Until the first abbreviation is expanded, the walk mirrors
            // `spec_first_abbrev` exactly.
            !expanded ==> spec_first_abbrev(zs0.skip(i as int), st, alpha, table@) == first0,
            // Once one expanded, the refusal hypotheses are settled false.
            expanded ==> (match first0 {
                None => true,
                Some(idx) => !old(stack)@.contains(idx),
            }),
            expanded ==> !spec_first_self_ref(mem@, zs0, old(stack)@, depth, abbrev_table as int, alpha, table@),
            hpre && i == 0 ==> st == DecState::Alpha(0) && out@ == Seq::<char>::empty(),
            hpre && i == 1 ==> st == DecState::Abbrev(zs0[0]) && out@ == Seq::<char>::empty(),
            hpre && i >= 2 ==> !(st is Abbrev) && out@ + spec_decode_zchars(
                zs0.skip(i as int),
                st,
                alpha,
                table@,
            ) == azs_dec + spec_decode_zchars(zs0.skip(2), DecState::Alpha(0), alpha, table@),
        decreases n - i,
    {
        let z = zs[i];
        let ghost pre = out@;
        let ghost st_pre = st;
        match st {
            DecState::Alpha(row) => {
                if 1 <= z && z <= 3 {
                    st = DecState::Abbrev(z);
                } else if z == 4 {
                    st = DecState::Alpha(1);
                } else if z == 5 {
                    st = DecState::Alpha(2);
                } else if z == 6 && row == 2 {
                    st = DecState::Ten1;
                } else {
                    out.push(alpha.lookup(row, z));
                    st = DecState::Alpha(0);
                }
            },
            DecState::Abbrev(shift) => {
                proof {
                    assert(!spec_no_abbrevs(zs0));
                    assert(zs0.skip(i as int)[0] == zs0[i as int]);
                }
                // The abbreviation index; expanding one that is already on
                // the expansion stack would loop forever.
                let index: u8 = (shift - 1) * 32 + z;
                proof {
                    assert(index == spec_abbrev_index(shift, z));
                    if !expanded {
                        assert(first0 == Some(index));
                    }
                    if hpre {
                        assert(i == 1);
                        assert(index == spec_abbrev_index(zs0[0], zs0[1]));
                    }
                }
                let mut seen = false;
                let mut k: usize = 0;
                let sn = stack.len();
                while k < sn
                    invariant
                        k <= sn,
                        sn == stack@.len(),
                        seen <==> (exists|q: int| 0 <= q < k && stack@[q] == index),
                    decreases sn - k,
                {
                    if stack[k] == index {
                        seen = true;
                    }
                    k = k + 1;
                }
                proof {
                    assert(seen <==> stack@.contains(index));
                }
                if seen || depth == 0 {
                    return Err(ZmachineError::RecursiveAbbreviation);
                }
                let off = 2 * (index as usize);
                if usize::MAX - off < abbrev_table {
                    return Err(ZmachineError::BadAddress);
                }
                let entry = mem.read_word(abbrev_table + off)?;
                stack.push(index);
                let expansion = decode_zstring_impl(
                    mem,
                    (entry as usize) * 2,
                    alpha,
                    abbrev_table,
                    table,
                    stack,
                    depth - 1,
                );
                match stack.pop() {
                    Some(_) => (),
                    None => (),
                }
                proof {
                    assert(stack@ =~= old(stack)@);
                }
                let expansion = match expansion {
                    Ok(p) => p.0,
                    Err(e) => {
                        return Err(e);
                    },
                };
                proof {
                    if !expanded {
                        assert(!old(stack)@.contains(index));
                        // The entry expanded, so it does not re-enter its
                        // own abbreviation: if it did, the recursive call's
                        // own refusal clause would have made it fail.
                        if spec_first_self_ref(
                            mem@,
                            zs0,
                            old(stack)@,
                            depth,
                            abbrev_table as int,
                            alpha,
                            table@,
                        ) {
                            assert(old(stack)@.push(index).contains(index));
                            assert(false);
                        }
                    }
                    expanded = true;
                }
                let mut k: usize = 0;
                let en = expansion.len();
                let ghost pre_exp = out@;
                while k < en
                    invariant
                        k <= en,
                        en == expansion@.len(),
                        out@ == pre_exp + expansion@.take(k as int),
                    decreases en - k,
                {
                    out.push(expansion[k]);
                    proof {
                        assert(out@ =~= pre_exp + expansion@.take(k + 1));
                    }
                    k = k + 1;
                }
                proof {
                    assert(out@ =~= pre_exp + expansion@);
                }
                st = DecState::Alpha(0);
            },
            DecState::Ten1 => {
                st = DecState::Ten2(z);
            },
            DecState::Ten2(hi) => {
                let code: u16 = (hi as u16) * 32 + (z as u16);
                if code <= 255 {
                    out.push(ZChar(code as u8).to_char(table));
                } else {
                    out.push('?');
                }
                st = DecState::Alpha(0);
            },
        }
        proof {
            if !(st_pre is Abbrev) {
                let stepped = spec_step(st_pre, zs0[i as int], alpha, table@);
                assert(st == stepped.0);
                assert(zs0.skip(i as int)[0] == zs0[i as int]);
                assert(zs0.skip(i as int).skip(1) =~= zs0.skip(i + 1));
                if spec_no_abbrevs(zs0) || (hpre && i >= 2) {
                    assert(out@ =~= pre + stepped.1);
                    let tail = spec_decode_zchars(zs0.skip(i + 1), st, alpha, table@);
                    assert(spec_decode_zchars(zs0.skip(i as int), st_pre, alpha, table@)
                        == stepped.1 + tail);
                    assert((pre + stepped.1) + tail =~= pre + (stepped.1 + tail));
                }
                if hpre && i >= 2 {
                    assert(zs0.skip(2)[i - 2] == zs0[i as int]);
                    assert(!(st is Abbrev));
                }
            } else {
                // The abbreviation arm reached this point only by
                // expanding, leaving the base state with the entry's text
                // appended.
                if hpre {
                    assert(i == 1);
                    assert(out@ =~= azs_dec);
                    assert(zs0.skip(2) =~= zs0.skip(i + 1));
                }
            }
        }
        i = i + 1;
    }
    proof {
        if spec_no_abbrevs(zs0) {
            assert(zs0.skip(n as int) =~= Seq::<u8>::empty());
            assert(out@ =~= out@ + spec_decode_zchars(zs0.skip(n as int), st, alpha, table@));
        }
        if hpre {
            assert(zs0.skip(n as int) =~= Seq::<u8>::empty());
            assert(out@ =~= azs_dec + spec_decode_zchars(
                zs0.skip(2),
                DecState::Alpha(0),
                alpha,
                table@,
            ));
        }
        if !expanded {
            assert(zs0.skip(n as int) =~= Seq::<u8>::empty());
            assert(first0 is None);
        }
    }
    Ok((out, end))
}


/// First position in `row` at or after `z` (exclusive of the special codes)
/// holding `c`.
pub open spec fn spec_pos_from(row: Seq<char>, c: char, z: int) -> Option<int>
    decreases 32 - z,
{
    if z < 0 || z >= 32 {
        None
    } else if row[z] == c {
        Some(z)
    } else {
        spec_pos_from(row, c, z + 1)
    }
}

pub proof fn lemma_pos_from_hit(row: Seq<char>, c: char, k: int, z: int)
    requires
        0 <= k <= z < 32,
        row[z] == c,
        forall|j: int| k <= j < z ==> row[j] != c,
    ensures
        spec_pos_from(row, c, k) == Some(z),
    decreases z - k,
{
    if k < z {
        lemma_pos_from_hit(row, c, k + 1, z);
    }
}

pub proof fn lemma_pos_from_miss(row: Seq<char>, c: char, k: int)
    requires
        0 <= k,
        forall|j: int| k <= j < 32 ==> row[j] != c,
    ensures
        spec_pos_from(row, c, k) is None,
    decreases 32 - k,
{
    if k < 32 {
        lemma_pos_from_miss(row, c, k + 1);
    }
}

pub proof fn lemma_pos_from_sound(row: Seq<char>, c: char, k: int, z: int)
    requires
        0 <= k,
        spec_pos_from(row, c, k) == Some(z),
    ensures
        k <= z < 32,
        row[z] == c,
    decreases 32 - k,
{
    if k < 32 && row[k] != c {
        lemma_pos_from_sound(row, c, k + 1, z);
    }
}

/// Where a character sits in alphabet row 0 or 1 for encoding: position 0
/// (space) or one of the 26 letters at 6..=31.
pub open spec fn spec_alpha_pos(row: Seq<char>, c: char) -> Option<int> {
    if row[0] == c {
        Some(0)
    } else {
        spec_pos_from(row, c, 6)
    }
}

/// The same for row 2, whose positions 6 (the 10-bit escape) can never be
/// emitted as a plain character.
pub open spec fn spec_alpha_pos2(row: Seq<char>, c: char) -> Option<int> {
    if row[0] == c {
        Some(0)
    } else {
        spec_pos_from(row, c, 7)
    }
}

/// The Z-characters one character encodes to: a bare row-0 position, a
/// shifted row-1 or row-2 position, a 10-bit ZSCII escape, or nothing when
/// the character is unrepresentable.
pub open spec fn spec_char_zchars(c: char, alpha: &Alphabet, table: Seq<char>) -> Seq<u8> {
    match spec_alpha_pos(alpha.a0@, c) {
        Some(z) => seq![z as u8],
        None => match spec_alpha_pos(alpha.a1@, c) {
            Some(z) => seq![4u8, z as u8],
            None => match spec_alpha_pos2(alpha.a2@, c) {
                Some(z) => seq![5u8, z as u8],
                None => match spec_from_char(c, table) {
                    Some(code) => seq![5u8, 6u8, (code / 32) as u8, (code % 32) as u8],
                    None => Seq::empty(),
                },
            },
        },
    }
}

/// `spec_char_zchars` over a whole text.
pub open spec fn spec_encode_zchars(s: Seq<char>, alpha: &Alphabet, table: Seq<char>) -> Seq<u8>
    decreases s.len(),
{
    if s.len() == 0 {
        Seq::empty()
    } else {
        spec_char_zchars(s[0], alpha, table) + spec_encode_zchars(s.skip(1), alpha, table)
    }
}

/// A character survives an encode-decode round trip: it sits in one of the
/// alphabet rows, or its ZSCII code maps back to it through the table.
pub open spec fn spec_representable(c: char, alpha: &Alphabet, table: Seq<char>) -> bool {
    ||| spec_alpha_pos(alpha.a0@, c) is Some
    ||| spec_alpha_pos(alpha.a1@, c) is Some
    ||| spec_alpha_pos2(alpha.a2@, c) is Some
    ||| match spec_from_char(c, table) {
        Some(code) => spec_to_char(code, table) == c,
        None => false,
    }
}

/// Find a character in one alphabet row for encoding.
fn find_in_row(row: &Vec<char>, c: char, start: usize) -> (r: Option<u8>)
    requires
        row@.len() == 32,
        start == 6 || start == 7,
    ensures
        match r {
            Some(z) => {
                &&& spec_pos_from(row@, c, start as int) == Some(z as int)
                &&& start <= z < 32
            },
            None => spec_pos_from(row@, c, start as int) is None,
        },
{
    let mut z = start;
    while z < 32
        invariant
            start <= z <= 32,
            row@.len() == 32,
            forall|j: int| start <= j < z ==> row@[j] != c,
        decreases 32 - z,
    {
        if row[z] == c {
            proof {
                lemma_pos_from_hit(row@, c, start as int, z as int);
            }
            return Some(z as u8);
        }
        z = z + 1;
    }
    proof {
        lemma_pos_from_miss(row@, c, start as int);
    }
    None
}

/// The Z-characters for one character; empty when it is unrepresentable.
pub fn encode_char(c: char, alpha: &Alphabet, table: &[char]) -> (r: Vec<u8>)
    requires
        alpha.wf(),
    ensures
        r@ == spec_char_zchars(c, alpha, table@),
        forall|i: int| 0 <= i < r@.len() ==> r@[i] < 32,
{
    let mut out: Vec<u8> = Vec::new();
    if alpha.a0[0] == c {
        out.push(0);
        return out;
    }
    if let Some(z) = find_in_row(&alpha.a0, c, 6) {
        out.push(z);
        return out;
    }
    if alpha.a1[0] == c {
        out.push(4);
        out.push(0);
        return out;
    }
    if let Some(z) = find_in_row(&alpha.a1, c, 6) {
        out.push(4);
        out.push(z);
        return out;
    }
    if alpha.a2[0] == c {
        out.push(5);
        out.push(0);
        return out;
    }
    if let Some(z) = find_in_row(&alpha.a2, c, 7) {
        out.push(5);
        out.push(z);
        return out;
    }
    match ZChar::from_char(c, table) {
        Some(zch) => {
            out.push(5);
            out.push(6);
            out.push(zch.0 / 32);
            out.push(zch.0 % 32);
            out
        },
        None => out,
    }
}

/// Encode a whole text as Z-characters; unrepresentable characters are
/// dropped.
pub fn encode_zchars(s: &[char], alpha: &Alphabet, table: &[char]) -> (r: Vec<u8>)
    requires
        alpha.wf(),
    ensures
        r@ == spec_encode_zchars(s@, alpha, table@),
        forall|i: int| 0 <= i < r@.len() ==> r@[i] < 32,
{
    let ghost s0 = s@;
    let mut out: Vec<u8> = Vec::new();
    let mut i: usize = 0;
    let n = s.len();
    proof {
        assert(s0.skip(0) =~= s0);
        assert(out@ + spec_encode_zchars(s0, alpha, table@) =~= spec_encode_zchars(
            s0,
            alpha,
            table@,
        ));
    }
    while i < n
        invariant
            alpha.wf(),
            n == s@.len(),
            s@ == s0,
            i <= n,
            forall|k: int| 0 <= k < out@.len() ==> out@[k] < 32,
            spec_encode_zchars(s0, alpha, table@) == out@ + spec_encode_zchars(
                s0.skip(i as int),
                alpha,
                table@,
            ),
        decreases n - i,
    {
        let ghost pre = out@;
        let enc = encode_char(s[i], alpha, table);
        let mut k: usize = 0;
        let en = enc.len();
        while k < en
            invariant
                k <= en,
                en == enc@.len(),
                out@ == pre + enc@.take(k as int),
                forall|j: int| 0 <= j < enc@.len() ==> enc@[j] < 32,
                forall|j: int| 0 <= j < pre.len() ==> pre[j] < 32,
            decreases en - k,
        {
            out.push(enc[k]);
            proof {
                assert(out@ =~= pre + enc@.take(k + 1));
            }
            k = k + 1;
        }
        proof {
            assert(out@ =~= pre + enc@);
            assert(s0.skip(i as int)[0] == s0[i as int]);
            assert(s0.skip(i as int).skip(1) =~= s0.skip(i + 1));
            let tail = spec_encode_zchars(s0.skip(i + 1), alpha, table@);
            assert((pre + enc@) + tail =~= pre + (enc@ + tail));
        }
        i = i + 1;
    }
    proof {
        assert(s0.skip(n as int) =~= Seq::<char>::empty());
        assert(out@ + spec_encode_zchars(s0.skip(n as int), alpha, table@) =~= out@);
    }
    out
}

/// Shift codes appended so the count is a positive multiple of three.
pub open spec fn spec_zpad(len: int) -> int {
    if len % 3 == 0 && len > 0 {
        0
    } else {
        3 - len % 3
    }
}

/// Z-characters packed three to a word, high bit set on the last word.
pub open spec fn spec_pack_groups(p: Seq<u8>) -> Seq<u8>
    decreases p.len(),
{
    if p.len() <= 3 {
        let w = 0x8000u16 | ((p[0] as u16) << 10) | ((p[1] as u16) << 5) | (p[2] as u16);
        seq![word_hi(w), word_lo(w)]
    } else {
        let w = ((p[0] as u16) << 10) | ((p[1] as u16) << 5) | (p[2] as u16);
        seq![word_hi(w), word_lo(w)] + spec_pack_groups(p.skip(3))
    }
}

/// The byte encoding of a Z-character sequence: padded with shifts, packed
/// into words, stop bit on the last.
pub open spec fn spec_pack(zs: Seq<u8>) -> Seq<u8> {
    spec_pack_groups(zs + Seq::new(spec_zpad(zs.len() as int) as nat, |i: int| 5u8))
}

/// Pack Z-characters into their byte encoding.
#[verifier::rlimit(100)]
#[verifier::spinoff_prover]
pub fn pack_zchars(zs: &[u8]) -> (r: Vec<u8>)
    requires
        forall|i: int| 0 <= i < zs@.len() ==> zs@[i] < 32,
    ensures
        r@ == spec_pack(zs@),
{
    let mut padded: Vec<u8> = Vec::new();
    let mut i: usize = 0;
    let n = zs.len();
    while i < n
        invariant
            i <= n,
            n == zs@.len(),
            padded@ == zs@.take(i as int),
            forall|j: int| 0 <= j < zs@.len() ==> zs@[j] < 32,
        decreases n - i,
    {
        padded.push(zs[i]);
        proof {
            assert(padded@ =~= zs@.take(i + 1));
        }
        i = i + 1;
    }
    proof {
        assert(padded@ =~= zs@ + Seq::new(0nat, |k: int| 5u8));
    }
    let rem = n % 3;
    let pad: usize = if n == 0 {
        3
    } else if rem == 0 {
        0
    } else {
        3 - rem
    };
    let mut p: usize = 0;
    while p < pad
        invariant
            p <= pad,
            pad <= 3,
            forall|j: int| 0 <= j < padded@.len() ==> padded@[j] < 32,
            padded@ == zs@ + Seq::new(p as nat, |k: int| 5u8),
        decreases pad - p,
    {
        padded.push(5);
        p = p + 1;
        proof {
            assert(padded@ =~= zs@ + Seq::new(p as nat, |k: int| 5u8));
        }
    }
    proof {
        assert(padded@ =~= zs@ + Seq::new(spec_zpad(zs@.len() as int) as nat, |k: int| 5u8));
    }
    let ghost padded0 = padded@;
    let mut out: Vec<u8> = Vec::new();
    let mut g: usize = 0;
    let n = padded.len();
    proof {
        assert(padded0.skip(0) =~= padded0);
        assert(out@ + spec_pack_groups(padded0) =~= spec_pack_groups(padded0));
    }
    while g + 3 < n
        invariant
            padded@ == padded0,
            n == padded@.len(),
            n % 3 == 0,
            n >= 3,
            g % 3 == 0,
            g + 3 <= n,
            forall|j: int| 0 <= j < padded@.len() ==> padded@[j] < 32,
            spec_pack_groups(padded0) == out@ + spec_pack_groups(padded0.skip(g as int)),
        decreases n - g,
    {
        let a = padded[g];
        let b = padded[g + 1];
        let c = padded[g + 2];
        let w: u16 = ((a as u16) << 10) | ((b as u16) << 5) | (c as u16);
        let ghost pre = out@;
        out.push((w / 256) as u8);
        out.push((w % 256) as u8);
        proof {
            assert(padded0.skip(g as int)[0] == padded0[g as int]);
            assert(padded0.skip(g as int)[1] == padded0[g + 1]);
            assert(padded0.skip(g as int)[2] == padded0[g + 2]);
            assert(padded0.skip(g as int).skip(3) =~= padded0.skip(g + 3));
            let tail = spec_pack_groups(padded0.skip(g + 3));
            assert(out@ =~= pre + seq![word_hi(w), word_lo(w)]);
            assert((pre + seq![word_hi(w), word_lo(w)]) + tail =~= pre + (seq![
                word_hi(w),
                word_lo(w),
            ] + tail));
        }
        g = g + 3;
    }
    let a = padded[g];
    let b = padded[g + 1];
    let c = padded[g + 2];
    let w: u16 = 0x8000u16 | ((a as u16) << 10) | ((b as u16) << 5) | (c as u16);
    let ghost pre = out@;
    out.push((w / 256) as u8);
    out.push((w % 256) as u8);
    proof {
        assert(padded0.skip(g as int)[0] == padded0[g as int]);
        assert(padded0.skip(g as int)[1] == padded0[g + 1]);
        assert(padded0.skip(g as int)[2] == padded0[g + 2]);
        assert(padded0.skip(g as int).len() == 3);
        assert(out@ =~= pre + seq![word_hi(w), word_lo(w)]);
    }
    out
}


/// Trailing padding shifts decode to nothing.
pub proof fn lemma_decode_pads(k: nat, st: DecState, alpha: &Alphabet, table: Seq<char>)
    requires
        st is Alpha,
    ensures
        spec_decode_zchars(Seq::new(k, |i: int| 5u8), st, alpha, table) == Seq::<char>::empty(),
    decreases k,
{
    let pads = Seq::new(k, |i: int| 5u8);
    if k > 0 {
        assert(pads[0] == 5u8);
        assert(pads.skip(1) =~= Seq::new((k - 1) as nat, |i: int| 5u8));
        lemma_decode_pads((k - 1) as nat, DecState::Alpha(2), alpha, table);
    }
}

/// Decoding what one representable character encodes to emits exactly that
/// character and returns to the base state.
pub proof fn lemma_decode_one(c: char, rest: Seq<u8>, alpha: &Alphabet, table: Seq<char>)
    requires
        alpha.wf(),
        spec_representable(c, alpha, table),
        spec_char_zchars(c, alpha, table).len() > 0,
    ensures
        spec_decode_zchars(
            spec_char_zchars(c, alpha, table) + rest,
            DecState::Alpha(0),
            alpha,
            table,
        ) == seq![c] + spec_decode_zchars(rest, DecState::Alpha(0), alpha, table),
{
    let enc = spec_char_zchars(c, alpha, table);
    let zs = enc + rest;
    let tail = spec_decode_zchars(rest, DecState::Alpha(0), alpha, table);
    match spec_alpha_pos(alpha.a0@, c) {
        Some(z) => {
            if alpha.a0@[0] != c {
                lemma_pos_from_sound(alpha.a0@, c, 6, z);
            }
            assert(zs[0] == z as u8);
            assert(zs.skip(1) =~= rest);
            assert(spec_step(DecState::Alpha(0), z as u8, alpha, table).0 == DecState::Alpha(0));
                    assert(spec_step(DecState::Alpha(0), z as u8, alpha, table).1 =~= seq![c]);
            assert(spec_decode_zchars(zs, DecState::Alpha(0), alpha, table) == seq![c] + tail);
        },
        None => match spec_alpha_pos(alpha.a1@, c) {
            Some(z) => {
                if alpha.a1@[0] != c {
                    lemma_pos_from_sound(alpha.a1@, c, 6, z);
                }
                let zs1 = zs.skip(1);
                assert(zs[0] == 4u8);
                assert(zs1[0] == z as u8);
                assert(zs1.skip(1) =~= rest);
                assert(spec_step(DecState::Alpha(0), 4u8, alpha, table).0 == DecState::Alpha(1));
                    assert(spec_step(DecState::Alpha(0), 4u8, alpha, table).1 =~= Seq::<char>::empty());
                assert(spec_step(DecState::Alpha(1), z as u8, alpha, table).0 == DecState::Alpha(0));
                    assert(spec_step(DecState::Alpha(1), z as u8, alpha, table).1 =~= seq![c]);
                assert(spec_decode_zchars(zs1, DecState::Alpha(1), alpha, table) == seq![c]
                    + tail);
                assert(spec_decode_zchars(zs, DecState::Alpha(0), alpha, table) =~= seq![c]
                    + tail);
            },
            None => match spec_alpha_pos2(alpha.a2@, c) {
                Some(z) => {
                    if alpha.a2@[0] != c {
                        lemma_pos_from_sound(alpha.a2@, c, 7, z);
                    }
                    let zs1 = zs.skip(1);
                    assert(zs[0] == 5u8);
                    assert(zs1[0] == z as u8);
                    assert(zs1.skip(1) =~= rest);
                    assert(spec_step(DecState::Alpha(0), 5u8, alpha, table).0 == DecState::Alpha(2));
                    assert(spec_step(DecState::Alpha(0), 5u8, alpha, table).1 =~= Seq::<char>::empty());
                    assert(z == 0 || z >= 7);
                    assert(spec_step(DecState::Alpha(2), z as u8, alpha, table).0 == DecState::Alpha(0));
                    assert(spec_step(DecState::Alpha(2), z as u8, alpha, table).1 =~= seq![c]);
                    assert(spec_decode_zchars(zs1, DecState::Alpha(2), alpha, table) == seq![c]
                        + tail);
                    assert(spec_decode_zchars(zs, DecState::Alpha(0), alpha, table) =~= seq![c]
                        + tail);
                },
                None => {
                    assert(spec_from_char(c, table) is Some);
                    let code = spec_from_char(c, table)->Some_0;
                    let hi = (code / 32) as u8;
                    let lo = (code % 32) as u8;
                    let zs1 = zs.skip(1);
                    let zs2 = zs1.skip(1);
                    let zs3 = zs2.skip(1);
                    assert(zs[0] == 5u8);
                    assert(zs1[0] == 6u8);
                    assert(zs2[0] == hi);
                    assert(zs3[0] == lo);
                    assert(zs3.skip(1) =~= rest);
                    assert(hi * 32 + lo == code);
                    assert(spec_tenbit(hi, lo, table) == c);
                    assert(spec_step(DecState::Alpha(0), 5u8, alpha, table).0 == DecState::Alpha(2));
                    assert(spec_step(DecState::Alpha(0), 5u8, alpha, table).1 =~= Seq::<char>::empty());
                    assert(spec_step(DecState::Alpha(2), 6u8, alpha, table).0 == DecState::Ten1);
                    assert(spec_step(DecState::Alpha(2), 6u8, alpha, table).1 =~= Seq::<char>::empty());
                    assert(spec_step(DecState::Ten1, hi, alpha, table).0 == DecState::Ten2(hi));
                    assert(spec_step(DecState::Ten1, hi, alpha, table).1 =~= Seq::<char>::empty());
                    assert(spec_step(DecState::Ten2(hi), lo, alpha, table).0 == DecState::Alpha(0));
                    assert(spec_step(DecState::Ten2(hi), lo, alpha, table).1 =~= seq![c]);
                    assert(spec_decode_zchars(zs3, DecState::Ten2(hi), alpha, table) == seq![c]
                        + tail);
                    assert(spec_decode_zchars(zs2, DecState::Ten1, alpha, table) =~= seq![c]
                        + tail);
                    assert(spec_decode_zchars(zs1, DecState::Alpha(2), alpha, table) =~= seq![c]
                        + tail);
                    assert(spec_decode_zchars(zs, DecState::Alpha(0), alpha, table) =~= seq![c]
                        + tail);
                },
            },
        },
    }
}

/// Decoding an encoded text followed by anything yields the text followed by
/// the decoding of the remainder.
pub proof fn lemma_decode_encode_tail(s: Seq<char>, t: Seq<u8>, alpha: &Alphabet, table: Seq<
    char,
>)
    requires
        alpha.wf(),
        forall|i: int| 0 <= i < s.len() ==> spec_representable(#[trigger] s[i], alpha, table),
    ensures
        spec_decode_zchars(
            spec_encode_zchars(s, alpha, table) + t,
            DecState::Alpha(0),
            alpha,
            table,
        ) == s + spec_decode_zchars(t, DecState::Alpha(0), alpha, table),
    decreases s.len(),
{
    let tail = spec_decode_zchars(t, DecState::Alpha(0), alpha, table);
    if s.len() == 0 {
        assert(spec_encode_zchars(s, alpha, table) + t =~= t);
        assert(s + tail =~= tail);
    } else {
        let c = s[0];
        let enc0 = spec_char_zchars(c, alpha, table);
        let enc_rest = spec_encode_zchars(s.skip(1), alpha, table);
        assert(spec_encode_zchars(s, alpha, table) =~= enc0 + enc_rest);
        assert((enc0 + enc_rest) + t =~= enc0 + (enc_rest + t));
        lemma_decode_encode_tail(s.skip(1), t, alpha, table);
        assert(spec_representable(c, alpha, table));
        assert(enc0.len() > 0) by {
            if spec_alpha_pos(alpha.a0@, c) is None && spec_alpha_pos(alpha.a1@, c) is None
                && spec_alpha_pos2(alpha.a2@, c) is None {
                assert(spec_from_char(c, table) is Some);
            }
        }
        lemma_decode_one(c, enc_rest + t, alpha, table);
        assert(seq![c] + (s.skip(1) + tail) =~= s + tail);
    }
}

/// Unpacking the packed bytes gives back the padded Z-characters.
pub proof fn lemma_collect_pack_groups(p: Seq<u8>, extra: Seq<u8>)
    requires
        p.len() % 3 == 0,
        p.len() > 0,
        forall|i: int| 0 <= i < p.len() ==> p[i] < 32,
    ensures
        spec_collect(spec_pack_groups(p) + extra, 0) == Some(
            (p, spec_pack_groups(p).len() as int),
        ),
        spec_pack_groups(p).len() == p.len() / 3 * 2,
    decreases p.len(),
{
    let a = p[0];
    let b = p[1];
    let c = p[2];
    let bytes = spec_pack_groups(p) + extra;
    if p.len() == 3 {
        let w = 0x8000u16 | ((a as u16) << 10) | ((b as u16) << 5) | (c as u16);
        assert(spec_pack_groups(p) =~= seq![word_hi(w), word_lo(w)]);
        assert(word_at(bytes, 0) == w) by {
            assert((w / 256) * 256 + w % 256 == w);
        }
        let aa = a as u16;
        let bb = b as u16;
        let cc = c as u16;
        assert(0x8000u16 | (aa << 10) | (bb << 5) | cc >= 0x8000) by (bit_vector);
        assert(aa < 32 && bb < 32 && cc < 32 ==> ((((0x8000u16 | (aa << 10) | (bb << 5) | cc)
            >> 10) & 31) == aa && (((0x8000u16 | (aa << 10) | (bb << 5) | cc) >> 5) & 31) == bb
            && ((0x8000u16 | (aa << 10) | (bb << 5) | cc) & 31) == cc)) by (bit_vector);
        assert(spec_collect(bytes, 0)->Some_0.0 =~= p);
    } else {
        let w = ((a as u16) << 10) | ((b as u16) << 5) | (c as u16);
        assert(spec_pack_groups(p) =~= seq![word_hi(w), word_lo(w)] + spec_pack_groups(p.skip(3)));
        assert(word_at(bytes, 0) == w) by {
            assert((w / 256) * 256 + w % 256 == w);
        }
        let aa = a as u16;
        let bb = b as u16;
        let cc = c as u16;
        assert(aa < 32 && bb < 32 && cc < 32 ==> (aa << 10) | (bb << 5) | cc < 0x8000)
            by (bit_vector);
        assert(aa < 32 && bb < 32 && cc < 32 ==> ((((aa << 10) | (bb << 5) | cc) >> 10) & 31)
            == aa && (((aa << 10) | (bb << 5) | cc) >> 5) & 31 == bb && ((aa << 10) | (bb << 5)
            | cc) & 31 == cc) by (bit_vector);
        lemma_collect_pack_groups(p.skip(3), extra);
        assert(bytes.skip(2) =~= spec_pack_groups(p.skip(3)) + extra);
        assert(spec_collect(bytes.skip(2), 0) == Some(
            (p.skip(3), spec_pack_groups(p.skip(3)).len() as int),
        ));
        lemma_collect_shift(bytes, 2);
        assert(spec_collect(bytes, 0)->Some_0.0 =~= p);
    }
}

/// `spec_collect` after a shift of origin.
pub proof fn lemma_collect_shift(bytes: Seq<u8>, k: int)
    requires
        0 <= k <= bytes.len(),
    ensures
        spec_collect(bytes, k) == match spec_collect(bytes.skip(k), 0) {
            None => None::<(Seq<u8>, int)>,
            Some((zs, end)) => Some((zs, end + k)),
        },
    decreases bytes.len() - k,
{
    let shifted = bytes.skip(k);
    if k + 2 <= bytes.len() {
        assert(word_at(shifted, 0) == word_at(bytes, k)) by {
            assert(shifted[0] == bytes[k]);
            assert(shifted[1] == bytes[k + 1]);
        }
        if word_at(bytes, k) < 0x8000 {
            lemma_collect_shift(bytes, k + 2);
            lemma_collect_shift(shifted, 2);
            assert(bytes.skip(k + 2) =~= shifted.skip(2));
        } else {
            assert(spec_collect(shifted, 0)->Some_0.0 =~= spec_collect(bytes, k)->Some_0.0);
        }
    }
}

/// Encoding then decoding restores any text whose characters the alphabet or
/// the translation table can represent: the packed bytes collect to the
/// padded Z-characters, and those decode to the original text.
pub proof fn lemma_zstring_round_trip(s: Seq<char>, alpha: &Alphabet, table: Seq<char>)
    requires
        alpha.wf(),
        forall|i: int| 0 <= i < s.len() ==> spec_representable(#[trigger] s[i], alpha, table),
    ensures
        ({
            let zs = spec_encode_zchars(s, alpha, table);
            let padded = zs + Seq::new(spec_zpad(zs.len() as int) as nat, |i: int| 5u8);
            let bytes = spec_pack(zs);
            &&& spec_collect(bytes, 0) == Some((padded, bytes.len() as int))
            &&& spec_decode_zchars(padded, DecState::Alpha(0), alpha, table) == s
        }),
{
    let zs = spec_encode_zchars(s, alpha, table);
    let pads = Seq::new(spec_zpad(zs.len() as int) as nat, |i: int| 5u8);
    let padded = zs + pads;
    lemma_encode_zchars_bounded(s, alpha, table);
    assert(forall|i: int| 0 <= i < padded.len() ==> padded[i] < 32);
    assert(padded.len() % 3 == 0 && padded.len() > 0);
    lemma_collect_pack_groups(padded, Seq::empty());
    assert(spec_pack_groups(padded) + Seq::empty() =~= spec_pack(zs));
    lemma_decode_encode_tail(s, pads, alpha, table);
    lemma_decode_pads(pads.len(), DecState::Alpha(0), alpha, table);
    assert(pads =~= Seq::new(pads.len(), |i: int| 5u8));
    assert(s + Seq::<char>::empty() =~= s);
}

/// Every Z-character an encoding produces is five bits.
pub proof fn lemma_encode_zchars_bounded(s: Seq<char>, alpha: &Alphabet, table: Seq<char>)
    requires
        alpha.wf(),
    ensures
        forall|i: int|
            0 <= i < spec_encode_zchars(s, alpha, table).len() ==> #[trigger] spec_encode_zchars(
                s,
                alpha,
                table,
            )[i] < 32,
    decreases s.len(),
{
    if s.len() > 0 {
        let c = s[0];
        let enc0 = spec_char_zchars(c, alpha, table);
        let rest = spec_encode_zchars(s.skip(1), alpha, table);
        lemma_encode_zchars_bounded(s.skip(1), alpha, table);
        assert(forall|i: int| 0 <= i < enc0.len() ==> #[trigger] enc0[i] < 32) by {
            match spec_alpha_pos(alpha.a0@, c) {
                Some(z) => {
                    if alpha.a0@[0] != c {
                        lemma_pos_from_sound(alpha.a0@, c, 6, z);
                    }
                },
                None => match spec_alpha_pos(alpha.a1@, c) {
                    Some(z) => {
                        if alpha.a1@[0] != c {
                            lemma_pos_from_sound(alpha.a1@, c, 6, z);
                        }
                    },
                    None => match spec_alpha_pos2(alpha.a2@, c) {
                        Some(z) => {
                            if alpha.a2@[0] != c {
                                lemma_pos_from_sound(alpha.a2@, c, 7, z);
                            }
                        },
                        None => {},
                    },
                },
            }
        }
        assert(spec_encode_zchars(s, alpha, table) == enc0 + rest);
        assert forall|i: int|
            0 <= i < spec_encode_zchars(s, alpha, table).len() implies #[trigger] spec_encode_zchars(
            s,
            alpha,
            table,
        )[i] < 32 by {
            if i < enc0.len() {
                assert(spec_encode_zchars(s, alpha, table)[i] == enc0[i]);
            } else {
                assert(spec_encode_zchars(s, alpha, table)[i] == rest[i - enc0.len()]);
            }
        }
    }
}

/// The encoded byte length of the Z-string at `addr` (the number of bytes
/// its words occupy, not its character count).
pub fn zstring_length(mem: &Buffer, addr: usize) -> (r: Result<usize, ZmachineError>)
    ensures
        match spec_collect(mem@, addr as int) {
            None => r is Err,
            Some((zs, end)) => r == Ok::<usize, ZmachineError>((end - addr) as usize),
        },
{
    let mut index = addr;
    let memlen = mem.len();
    loop
        invariant
            memlen == mem@.len(),
            index >= addr,
            match spec_collect(mem@, addr as int) {
                None => spec_collect(mem@, index as int) is None,
                Some((zs, end)) => match spec_collect(mem@, index as int) {
                    None => false,
                    Some((rest, e2)) => end == e2,
                },
            },
        decreases mem@.len() - index,
    {
        let w = match mem.read_word(index) {
            Ok(w) => w,
            Err(e) => {
                return Err(e);
            },
        };
        index = index + 2;
        if w >= 0x8000 {
            return Ok(index - addr);
        }
    }
}

} // verus!
