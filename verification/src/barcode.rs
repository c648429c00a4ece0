//! EAN-13 module patterns: three guard bars `101`, six left digits whose
//! L/G parity the first digit chooses, the centre guard `01010`, six right
//! digits (R codes) and the end guard `101` — 95 modules in all.
use vstd::prelude::*;
use crate::text::{chars_of, push_str, string_of};

verus! {

/// The L code (odd parity) of a digit.
pub open spec fn l_code(d: nat) -> Seq<char> {
    if d == 0 { "0001101"@ } else if d == 1 { "0011001"@ } else if d == 2 { "0010011"@ }
    else if d == 3 { "0111101"@ } else if d == 4 { "0100011"@ } else if d == 5 { "0110001"@ }
    else if d == 6 { "0101111"@ } else if d == 7 { "0111011"@ } else if d == 8 { "0110111"@ }
    else { "0001011"@ }
}

/// The G code (even parity) of a digit.
pub open spec fn g_code(d: nat) -> Seq<char> {
    if d == 0 { "0100111"@ } else if d == 1 { "0110011"@ } else if d == 2 { "0011011"@ }
    else if d == 3 { "0100001"@ } else if d == 4 { "0011101"@ } else if d == 5 { "0111001"@ }
    else if d == 6 { "0000101"@ } else if d == 7 { "0010001"@ } else if d == 8 { "0001001"@ }
    else { "0010111"@ }
}

/// The R code (right half) of a digit.
pub open spec fn r_code(d: nat) -> Seq<char> {
    if d == 0 { "1110010"@ } else if d == 1 { "1100110"@ } else if d == 2 { "1101100"@ }
    else if d == 3 { "1000010"@ } else if d == 4 { "1011100"@ } else if d == 5 { "1001110"@ }
    else if d == 6 { "1010000"@ } else if d == 7 { "1000100"@ } else if d == 8 { "1001000"@ }
    else { "1110100"@ }
}

/// The parity pattern of the six left digits for a first digit (`L` odd, `G` even).
pub open spec fn parity(d: nat) -> Seq<char> {
    if d == 0 { "LLLLLL"@ } else if d == 1 { "LLGLGG"@ } else if d == 2 { "LLGGLG"@ }
    else if d == 3 { "LLGGGL"@ } else if d == 4 { "LGLLGG"@ } else if d == 5 { "LGGLLG"@ }
    else if d == 6 { "LGGGLL"@ } else if d == 7 { "LGLGLG"@ } else if d == 8 { "LGLGGL"@ }
    else { "LGGLGL"@ }
}

/// The ASCII digits of a text, as numbers, in order.
pub open spec fn ascii_digits(s: Seq<char>) -> Seq<u8>
    decreases s.len(),
{
    if s.len() == 0 {
        seq![]
    } else {
        ascii_digits(s.drop_last()) + if '0' <= s.last() && s.last() <= '9' {
            seq![(s.last() as u32 - 48) as u8]
        } else {
            seq![]
        }
    }
}

/// The codes of left digits `1..k+1` (each L or G by the parity pattern).
pub open spec fn left_codes(ds: Seq<u8>, k: int) -> Seq<char>
    decreases k,
{
    if k <= 0 {
        seq![]
    } else {
        left_codes(ds, k - 1) + if parity(ds[0] as nat)[k - 1] == 'L' {
            l_code(ds[k] as nat)
        } else {
            g_code(ds[k] as nat)
        }
    }
}

/// The codes of right digits `7..7+k`.
pub open spec fn right_codes(ds: Seq<u8>, k: int) -> Seq<char>
    decreases k,
{
    if k <= 0 {
        seq![]
    } else {
        right_codes(ds, k - 1) + r_code(ds[6 + k] as nat)
    }
}

/// The 95-module pattern of thirteen digits.
pub open spec fn pattern(ds: Seq<u8>) -> Seq<char> {
    "101"@ + left_codes(ds, 6) + "01010"@ + right_codes(ds, 6) + "101"@
}

/// The digits and module pattern of an ISBN, when it has exactly thirteen
/// digits (separators ignored).
pub open spec fn spec_modules(isbn: Seq<char>) -> Option<(Seq<u8>, Seq<char>)> {
    let ds = ascii_digits(isbn);
    if ds.len() != 13 {
        None
    } else {
        Some((ds, pattern(ds)))
    }
}

fn l_of(d: u8) -> (r: &'static str)
    requires
        d < 10,
    ensures
        r@ == l_code(d as nat),
{
    match d {
        0 => "0001101",
        1 => "0011001",
        2 => "0010011",
        3 => "0111101",
        4 => "0100011",
        5 => "0110001",
        6 => "0101111",
        7 => "0111011",
        8 => "0110111",
        _ => "0001011",
    }
}

fn g_of(d: u8) -> (r: &'static str)
    requires
        d < 10,
    ensures
        r@ == g_code(d as nat),
{
    match d {
        0 => "0100111",
        1 => "0110011",
        2 => "0011011",
        3 => "0100001",
        4 => "0011101",
        5 => "0111001",
        6 => "0000101",
        7 => "0010001",
        8 => "0001001",
        _ => "0010111",
    }
}

fn r_of(d: u8) -> (r: &'static str)
    requires
        d < 10,
    ensures
        r@ == r_code(d as nat),
{
    match d {
        0 => "1110010",
        1 => "1100110",
        2 => "1101100",
        3 => "1000010",
        4 => "1011100",
        5 => "1001110",
        6 => "1010000",
        7 => "1000100",
        8 => "1001000",
        _ => "1110100",
    }
}

fn parity_of(d: u8) -> (r: &'static str)
    requires
        d < 10,
    ensures
        r@ == parity(d as nat),
{
    match d {
        0 => "LLLLLL",
        1 => "LLGLGG",
        2 => "LLGGLG",
        3 => "LLGGGL",
        4 => "LGLLGG",
        5 => "LGGLLG",
        6 => "LGGGLL",
        7 => "LGLGLG",
        8 => "LGLGGL",
        _ => "LGGLGL",
    }
}

/// The 95-module pattern (`0`/`1`) of an ISBN's thirteen digits, or `None`
/// when it does not have thirteen digits once separators are dropped.
pub fn modules(isbn: &str) -> (r: Option<(Vec<u8>, String)>)
    ensures
        match r {
            Some((ds, m)) => spec_modules(isbn@) == Some((ds@, m@)),
            None => spec_modules(isbn@) is None,
        },
{
    let v = chars_of(isbn);
    let mut ds: Vec<u8> = Vec::new();
    let mut i: usize = 0;
    while i < v.len()
        invariant
            0 <= i <= v@.len(),
            v@ == isbn@,
            ds@ == ascii_digits(v@.take(i as int)),
            forall|k: int| 0 <= k < ds@.len() ==> #[trigger] ds@[k] < 10,
        decreases v@.len() - i,
    {
        let c = v[i];
        assert(v@.take(i as int + 1).drop_last() =~= v@.take(i as int));
        if '0' <= c && c <= '9' {
            ds.push(((c as u32) - 48) as u8);
        }
        i += 1;
    }
    assert(v@.take(v@.len() as int) =~= v@);
    if ds.len() != 13 {
        return None;
    }
    let mut m: Vec<char> = Vec::new();
    push_str(&mut m, "101");
    let p = chars_of(parity_of(ds[0]));
    proof {
        let d0 = ds@[0] as nat;
        reveal_strlit("LLLLLL");
        reveal_strlit("LLGLGG");
        reveal_strlit("LLGGLG");
        reveal_strlit("LLGGGL");
        reveal_strlit("LGLLGG");
        reveal_strlit("LGGLLG");
        reveal_strlit("LGGGLL");
        reveal_strlit("LGLGLG");
        reveal_strlit("LGLGGL");
        reveal_strlit("LGGLGL");
        assert(p@.len() == 6);
    }
    let ghost m0 = m@;
    let mut k: usize = 0;
    while k < 6
        invariant
            0 <= k <= 6,
            ds@.len() == 13,
            forall|j: int| 0 <= j < 13 ==> #[trigger] ds@[j] < 10,
            p@ == parity(ds@[0] as nat),
            p@.len() == 6,
            m@ == m0 + left_codes(ds@, k as int),
        decreases 6 - k,
    {
        let d = ds[k + 1];
        if p[k] == 'L' {
            push_str(&mut m, l_of(d));
        } else {
            push_str(&mut m, g_of(d));
        }
        k += 1;
    }
    push_str(&mut m, "01010");
    let ghost m1 = m@;
    let mut j: usize = 0;
    while j < 6
        invariant
            0 <= j <= 6,
            ds@.len() == 13,
            forall|q: int| 0 <= q < 13 ==> #[trigger] ds@[q] < 10,
            m@ == m1 + right_codes(ds@, j as int),
        decreases 6 - j,
    {
        push_str(&mut m, r_of(ds[7 + j]));
        j += 1;
    }
    push_str(&mut m, "101");
    assert(m@ =~= pattern(ds@));
    Some((ds, string_of(&m)))
}

// ---------------------------------------------------------------------------
// Laws
// ---------------------------------------------------------------------------

/// Every digit's code is seven modules wide.
pub proof fn lemma_code_widths(d: nat)
    ensures
        l_code(d).len() == 7,
        g_code(d).len() == 7,
        r_code(d).len() == 7,
        parity(d).len() == 6,
{
    reveal_strlit("0001101"); reveal_strlit("0011001"); reveal_strlit("0010011");
    reveal_strlit("0111101"); reveal_strlit("0100011"); reveal_strlit("0110001");
    reveal_strlit("0101111"); reveal_strlit("0111011"); reveal_strlit("0110111");
    reveal_strlit("0001011");
    reveal_strlit("0100111"); reveal_strlit("0110011"); reveal_strlit("0011011");
    reveal_strlit("0100001"); reveal_strlit("0011101"); reveal_strlit("0111001");
    reveal_strlit("0000101"); reveal_strlit("0010001"); reveal_strlit("0001001");
    reveal_strlit("0010111");
    reveal_strlit("1110010"); reveal_strlit("1100110"); reveal_strlit("1101100");
    reveal_strlit("1000010"); reveal_strlit("1011100"); reveal_strlit("1001110");
    reveal_strlit("1010000"); reveal_strlit("1000100"); reveal_strlit("1001000");
    reveal_strlit("1110100");
    reveal_strlit("LLLLLL"); reveal_strlit("LLGLGG"); reveal_strlit("LLGGLG");
    reveal_strlit("LLGGGL"); reveal_strlit("LGLLGG"); reveal_strlit("LGGLLG");
    reveal_strlit("LGGGLL"); reveal_strlit("LGLGLG"); reveal_strlit("LGLGGL");
    reveal_strlit("LGGLGL");
}

/// The left and right halves are seven modules per digit.
pub proof fn lemma_half_widths(ds: Seq<u8>, k: int)
    requires
        0 <= k <= 6,
        ds.len() == 13,
    ensures
        left_codes(ds, k).len() == 7 * k,
        right_codes(ds, k).len() == 7 * k,
    decreases k,
{
    if k > 0 {
        lemma_half_widths(ds, k - 1);
        lemma_code_widths(ds[k] as nat);
        lemma_code_widths(ds[6 + k] as nat);
    }
}

/// A thirteen-digit ISBN gives 95 modules: guard `101` at both ends and the
/// centre guard `01010` at modules 45 to 49.
pub proof fn law_modules_shape(isbn: Seq<char>)
    requires
        spec_modules(isbn) is Some,
    ensures
        spec_modules(isbn) matches Some((ds, m)) && ds.len() == 13 && m.len() == 95 && m.take(3) == "101"@
            && m.skip(92) == "101"@ && m.subrange(45, 50) == "01010"@,
{
    reveal_strlit("101");
    reveal_strlit("01010");
    let ds = ascii_digits(isbn);
    lemma_half_widths(ds, 6);
    let m = pattern(ds);
    let a = "101"@;
    let l = left_codes(ds, 6);
    let c = "01010"@;
    let r = right_codes(ds, 6);
    assert(m == a + l + c + r + a);
    assert(m.take(3) =~= a);
    assert(m.skip(92) =~= a);
    assert(m.subrange(45, 50) =~= c);
}

/// Where the EAN-13 standard puts even-parity (G) codes among the six left
/// digits for each leading digit, positions counted from 0.
pub open spec fn g_positions(d: nat) -> Set<int> {
    if d == 0 { Set::empty() }
    else if d == 1 { set![2, 4, 5] }
    else if d == 2 { set![2, 3, 5] }
    else if d == 3 { set![2, 3, 4] }
    else if d == 4 { set![1, 4, 5] }
    else if d == 5 { set![1, 2, 5] }
    else if d == 6 { set![1, 2, 3] }
    else if d == 7 { set![1, 3, 5] }
    else if d == 8 { set![1, 3, 4] }
    else { set![1, 2, 4] }
}

/// The parity pattern of each leading digit is the standard one: six codes,
/// a G exactly at the standard's even-parity positions and an L elsewhere
/// (so Bookland's 9 gives LGGLGL).
pub proof fn law_parity_is_standard(d: nat, i: int)
    requires
        d < 10,
        0 <= i < 6,
    ensures
        parity(d).len() == 6,
        parity(d)[i] == 'G' <==> g_positions(d).contains(i),
        parity(d)[i] == 'L' <==> !g_positions(d).contains(i),
{
        if d == 0 {
            reveal_strlit("LLLLLL");
            assert(parity(d) =~= seq!['L', 'L', 'L', 'L', 'L', 'L']);
        }
        if d == 1 {
            reveal_strlit("LLGLGG");
            assert(parity(d) =~= seq!['L', 'L', 'G', 'L', 'G', 'G']);
        }
        if d == 2 {
            reveal_strlit("LLGGLG");
            assert(parity(d) =~= seq!['L', 'L', 'G', 'G', 'L', 'G']);
        }
        if d == 3 {
            reveal_strlit("LLGGGL");
            assert(parity(d) =~= seq!['L', 'L', 'G', 'G', 'G', 'L']);
        }
        if d == 4 {
            reveal_strlit("LGLLGG");
            assert(parity(d) =~= seq!['L', 'G', 'L', 'L', 'G', 'G']);
        }
        if d == 5 {
            reveal_strlit("LGGLLG");
            assert(parity(d) =~= seq!['L', 'G', 'G', 'L', 'L', 'G']);
        }
        if d == 6 {
            reveal_strlit("LGGGLL");
            assert(parity(d) =~= seq!['L', 'G', 'G', 'G', 'L', 'L']);
        }
        if d == 7 {
            reveal_strlit("LGLGLG");
            assert(parity(d) =~= seq!['L', 'G', 'L', 'G', 'L', 'G']);
        }
        if d == 8 {
            reveal_strlit("LGLGGL");
            assert(parity(d) =~= seq!['L', 'G', 'L', 'G', 'G', 'L']);
        }
        if d == 9 {
            reveal_strlit("LGGLGL");
            assert(parity(d) =~= seq!['L', 'G', 'G', 'L', 'G', 'L']);
        }
}

/// A scanner can tell the leading digit from the parities: no two leading
/// digits share a pattern, and every pattern opens with an L code.
pub proof fn law_parity_decodes(d1: nat, d2: nat)
    requires
        d1 < 10,
        d2 < 10,
    ensures
        parity(d1)[0] == 'L',
        parity(d1) == parity(d2) ==> d1 == d2,
{
    law_parity_is_standard(d1, 0);
    if parity(d1) == parity(d2) && d1 != d2 {
        assert(forall|i: int| 0 <= i < 6 ==> parity(d1)[i] == parity(d2)[i]);
        law_parity_is_standard(d1, 1);
        law_parity_is_standard(d2, 1);
        law_parity_is_standard(d1, 2);
        law_parity_is_standard(d2, 2);
        law_parity_is_standard(d1, 3);
        law_parity_is_standard(d2, 3);
        law_parity_is_standard(d1, 4);
        law_parity_is_standard(d2, 4);
        law_parity_is_standard(d1, 5);
        law_parity_is_standard(d2, 5);
    }
}

/// The three code sets are tied as the standard ties them: an R code is its
/// L code with every module flipped, and a G code is its R code reversed.
pub proof fn law_code_sets_related(d: nat, j: int)
    requires
        d < 10,
        0 <= j < 7,
    ensures
        r_code(d)[j] == (if l_code(d)[j] == '0' { '1' } else { '0' }),
        g_code(d)[j] == r_code(d)[6 - j],
{
        if d == 0 {
            reveal_strlit("0001101");
            assert(l_code(d) =~= seq!['0', '0', '0', '1', '1', '0', '1']);
        }
        if d == 1 {
            reveal_strlit("0011001");
            assert(l_code(d) =~= seq!['0', '0', '1', '1', '0', '0', '1']);
        }
        if d == 2 {
            reveal_strlit("0010011");
            assert(l_code(d) =~= seq!['0', '0', '1', '0', '0', '1', '1']);
        }
        if d == 3 {
            reveal_strlit("0111101");
            assert(l_code(d) =~= seq!['0', '1', '1', '1', '1', '0', '1']);
        }
        if d == 4 {
            reveal_strlit("0100011");
            assert(l_code(d) =~= seq!['0', '1', '0', '0', '0', '1', '1']);
        }
        if d == 5 {
            reveal_strlit("0110001");
            assert(l_code(d) =~= seq!['0', '1', '1', '0', '0', '0', '1']);
        }
        if d == 6 {
            reveal_strlit("0101111");
            assert(l_code(d) =~= seq!['0', '1', '0', '1', '1', '1', '1']);
        }
        if d == 7 {
            reveal_strlit("0111011");
            assert(l_code(d) =~= seq!['0', '1', '1', '1', '0', '1', '1']);
        }
        if d == 8 {
            reveal_strlit("0110111");
            assert(l_code(d) =~= seq!['0', '1', '1', '0', '1', '1', '1']);
        }
        if d == 9 {
            reveal_strlit("0001011");
            assert(l_code(d) =~= seq!['0', '0', '0', '1', '0', '1', '1']);
        }
        if d == 0 {
            reveal_strlit("0100111");
            assert(g_code(d) =~= seq!['0', '1', '0', '0', '1', '1', '1']);
        }
        if d == 1 {
            reveal_strlit("0110011");
            assert(g_code(d) =~= seq!['0', '1', '1', '0', '0', '1', '1']);
        }
        if d == 2 {
            reveal_strlit("0011011");
            assert(g_code(d) =~= seq!['0', '0', '1', '1', '0', '1', '1']);
        }
        if d == 3 {
            reveal_strlit("0100001");
            assert(g_code(d) =~= seq!['0', '1', '0', '0', '0', '0', '1']);
        }
        if d == 4 {
            reveal_strlit("0011101");
            assert(g_code(d) =~= seq!['0', '0', '1', '1', '1', '0', '1']);
        }
        if d == 5 {
            reveal_strlit("0111001");
            assert(g_code(d) =~= seq!['0', '1', '1', '1', '0', '0', '1']);
        }
        if d == 6 {
            reveal_strlit("0000101");
            assert(g_code(d) =~= seq!['0', '0', '0', '0', '1', '0', '1']);
        }
        if d == 7 {
            reveal_strlit("0010001");
            assert(g_code(d) =~= seq!['0', '0', '1', '0', '0', '0', '1']);
        }
        if d == 8 {
            reveal_strlit("0001001");
            assert(g_code(d) =~= seq!['0', '0', '0', '1', '0', '0', '1']);
        }
        if d == 9 {
            reveal_strlit("0010111");
            assert(g_code(d) =~= seq!['0', '0', '1', '0', '1', '1', '1']);
        }
        if d == 0 {
            reveal_strlit("1110010");
            assert(r_code(d) =~= seq!['1', '1', '1', '0', '0', '1', '0']);
        }
        if d == 1 {
            reveal_strlit("1100110");
            assert(r_code(d) =~= seq!['1', '1', '0', '0', '1', '1', '0']);
        }
        if d == 2 {
            reveal_strlit("1101100");
            assert(r_code(d) =~= seq!['1', '1', '0', '1', '1', '0', '0']);
        }
        if d == 3 {
            reveal_strlit("1000010");
            assert(r_code(d) =~= seq!['1', '0', '0', '0', '0', '1', '0']);
        }
        if d == 4 {
            reveal_strlit("1011100");
            assert(r_code(d) =~= seq!['1', '0', '1', '1', '1', '0', '0']);
        }
        if d == 5 {
            reveal_strlit("1001110");
            assert(r_code(d) =~= seq!['1', '0', '0', '1', '1', '1', '0']);
        }
        if d == 6 {
            reveal_strlit("1010000");
            assert(r_code(d) =~= seq!['1', '0', '1', '0', '0', '0', '0']);
        }
        if d == 7 {
            reveal_strlit("1000100");
            assert(r_code(d) =~= seq!['1', '0', '0', '0', '1', '0', '0']);
        }
        if d == 8 {
            reveal_strlit("1001000");
            assert(r_code(d) =~= seq!['1', '0', '0', '1', '0', '0', '0']);
        }
        if d == 9 {
            reveal_strlit("1110100");
            assert(r_code(d) =~= seq!['1', '1', '1', '0', '1', '0', '0']);
        }
}

} // verus!
