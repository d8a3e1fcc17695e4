//! The search alphabet, the oracle's fixed prompt, and candidate payload
//! construction: a payload is the known plaintext, one candidate byte, and a
//! line terminator.

use vstd::prelude::*;

verus! {

/// Byte that ends the solve loop once appended: `}`.
pub const TERMINATOR: u8 = 125;

/// Line terminator appended to every candidate payload: `\n`.
pub const NEWLINE: u8 = 10;

/// The search alphabet: lowercase letters, digits, `_`, `-`, `{`, `}`.
pub open spec fn spec_charset() -> Seq<u8> {
    Seq::new(26, |i: int| (97 + i) as u8) + Seq::new(10, |i: int| (48 + i) as u8) + seq![
        95u8,
        45u8,
        123u8,
        125u8,
    ]
}

/// The charset is never empty and contains the terminator byte.
pub proof fn lemma_charset_wf()
    ensures
        spec_charset().len() == 40,
        spec_charset().contains(TERMINATOR),
        forall|i: int| 0 <= i < spec_charset().len() - 1 ==> spec_charset()[i] != TERMINATOR,
{
    let cs = spec_charset();
    assert(cs[39] == TERMINATOR);
    assert forall|i: int| 0 <= i < 39 implies cs[i] != TERMINATOR by {
        if i < 26 {
            assert(cs[i] == (97 + i) as u8);
        } else if i < 36 {
            assert(cs[i] == (48 + (i - 26)) as u8);
        }
    }
}

/// Builds the search alphabet in its fixed order.
pub fn charset() -> (cs: Vec<u8>)
    ensures
        cs@ == spec_charset(),
{
    let mut cs: Vec<u8> = Vec::new();
    let mut b: u8 = 97;
    while b <= 122
        invariant
            97 <= b <= 123,
            cs@ =~= Seq::new(26, |i: int| (97 + i) as u8).take(b - 97),
        decreases 123 - b,
    {
        cs.push(b);
        b = b + 1;
    }
    assert(cs@ =~= Seq::new(26, |i: int| (97 + i) as u8));
    let ghost letters = cs@;
    let mut d: u8 = 48;
    while d <= 57
        invariant
            48 <= d <= 58,
            cs@ =~= letters + Seq::new(10, |i: int| (48 + i) as u8).take(d - 48),
        decreases 58 - d,
    {
        cs.push(d);
        d = d + 1;
    }
    cs.push(95);
    cs.push(45);
    cs.push(123);
    cs.push(125);
    assert(cs@ =~= spec_charset());
    cs
}

/// The fixed prompt the oracle sends before accepting input:
/// `Guess the flag >>> `.
pub open spec fn spec_prompt() -> Seq<u8> {
    seq![
        71u8,
        117u8,
        101u8,
        115u8,
        115u8,
        32u8,
        116u8,
        104u8,
        101u8,
        32u8,
        102u8,
        108u8,
        97u8,
        103u8,
        32u8,
        62u8,
        62u8,
        62u8,
        32u8,
    ]
}

/// Builds the prompt as bytes.
pub fn prompt() -> (p: Vec<u8>)
    ensures
        p@ == spec_prompt(),
        p@.len() == 19,
{
    let mut p: Vec<u8> = Vec::new();
    p.push(71);
    p.push(117);
    p.push(101);
    p.push(115);
    p.push(115);
    p.push(32);
    p.push(116);
    p.push(104);
    p.push(101);
    p.push(32);
    p.push(102);
    p.push(108);
    p.push(97);
    p.push(103);
    p.push(32);
    p.push(62);
    p.push(62);
    p.push(62);
    p.push(32);
    assert(p@ =~= spec_prompt());
    p
}

/// A candidate payload: the known plaintext, one candidate byte, a newline.
pub open spec fn spec_payload(plain: Seq<u8>, candidate: u8) -> Seq<u8> {
    plain.push(candidate).push(NEWLINE)
}

/// Builds the payload sent to the oracle for one candidate byte.
pub fn build_payload(plain: &Vec<u8>, candidate: u8) -> (p: Vec<u8>)
    ensures
        p@ == spec_payload(plain@, candidate),
{
    let mut p: Vec<u8> = Vec::new();
    let mut i: usize = 0;
    while i < plain.len()
        invariant
            i <= plain@.len(),
            p@ =~= plain@.take(i as int),
        decreases plain@.len() - i,
    {
        p.push(plain[i]);
        i = i + 1;
    }
    assert(p@ =~= plain@);
    p.push(candidate);
    p.push(NEWLINE);
    p
}

} // verus!
