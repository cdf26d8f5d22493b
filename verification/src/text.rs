//! Text rendering shared by the metrics code: decimal numbers, percentages
//! with one fractional digit, and byte-level substring search.

use vstd::prelude::*;
use vstd::string::StringExecFns;

verus! {

/// The character that stands for one decimal digit.
pub open spec fn digit_char(d: nat) -> char
    recommends
        d < 10,
{
    if d == 0 {
        '0'
    } else if d == 1 {
        '1'
    } else if d == 2 {
        '2'
    } else if d == 3 {
        '3'
    } else if d == 4 {
        '4'
    } else if d == 5 {
        '5'
    } else if d == 6 {
        '6'
    } else if d == 7 {
        '7'
    } else if d == 8 {
        '8'
    } else {
        '9'
    }
}

/// The decimal representation of `n`, without sign and without leading
/// zeros (zero itself is the single character `0`).
pub open spec fn decimal(n: nat) -> Seq<char>
    decreases n,
{
    if n < 10 {
        seq![digit_char(n)]
    } else {
        decimal(n / 10).push(digit_char(n % 10))
    }
}

/// The one-character string of a decimal digit.
fn digit_str(d: u128) -> (s: &'static str)
    requires
        d < 10,
    ensures
        s@ == seq![digit_char(d as nat)],
{
    proof {
        reveal_strlit("0");
        reveal_strlit("1");
        reveal_strlit("2");
        reveal_strlit("3");
        reveal_strlit("4");
        reveal_strlit("5");
        reveal_strlit("6");
        reveal_strlit("7");
        reveal_strlit("8");
        reveal_strlit("9");
    }
    let s: &'static str = if d == 0 {
        "0"
    } else if d == 1 {
        "1"
    } else if d == 2 {
        "2"
    } else if d == 3 {
        "3"
    } else if d == 4 {
        "4"
    } else if d == 5 {
        "5"
    } else if d == 6 {
        "6"
    } else if d == 7 {
        "7"
    } else if d == 8 {
        "8"
    } else {
        "9"
    };
    assert(s@ =~= seq![digit_char(d as nat)]);
    s
}

/// Appends the decimal representation of `n` to `out`.
pub fn push_decimal(out: &mut String, n: u128)
    ensures
        final(out)@ == old(out)@ + decimal(n as nat),
    decreases n,
{
    if n >= 10 {
        push_decimal(out, n / 10);
    }
    out.append(digit_str(n % 10));
    assert(out@ =~= old(out)@ + decimal(n as nat));
}

/// The decimal representation of `n` as a string of its own.
pub fn decimal_string(n: u128) -> (s: String)
    ensures
        s@ == decimal(n as nat),
{
    let mut s = String::new();
    push_decimal(&mut s, n);
    assert(s@ =~= decimal(n as nat));
    s
}

/// `part` out of `whole`, in tenths of a percent, rounded to the nearest
/// tenth; a value exactly halfway between two tenths goes to the even one.
/// Nothing out of nothing is zero.
pub open spec fn share_tenths(part: nat, whole: nat) -> nat {
    if whole == 0 {
        0
    } else {
        let q = (part * 1000) / whole;
        let r = (part * 1000) % whole;
        if 2 * r > whole || (2 * r == whole && q % 2 == 1) {
            q + 1
        } else {
            q
        }
    }
}

/// A share never exceeds one thousand tenths of a percent.
pub proof fn lemma_share_tenths_bound(part: nat, whole: nat)
    requires
        part <= whole,
    ensures
        share_tenths(part, whole) <= 1000,
{
    if whole > 0 {
        let n = part * 1000;
        let q = n / whole;
        let r = n % whole;
        assert(n == whole * q + r && 0 <= r < whole) by {
            vstd::arithmetic::div_mod::lemma_fundamental_div_mod(n as int, whole as int);
            vstd::arithmetic::div_mod::lemma_mod_bound(n as int, whole as int);
        }
        assert(n <= whole * 1000) by (nonlinear_arith)
            requires
                n == part * 1000,
                part <= whole,
        ;
        if q >= 1000 {
            assert(whole * q >= whole * 1000) by (nonlinear_arith)
                requires
                    q >= 1000,
            ;
            assert(q == 1000 && r == 0) by (nonlinear_arith)
                requires
                    n == whole * q + r,
                    n <= whole * 1000,
                    whole * q >= whole * 1000,
                    q >= 1000,
                    r >= 0,
                    whole > 0,
            ;
        }
    }
}

/// Computes [`share_tenths`].
pub fn share_in_tenths(part: u64, whole: u128) -> (t: u128)
    requires
        part <= whole,
    ensures
        t == share_tenths(part as nat, whole as nat),
        t <= 1000,
{
    proof {
        lemma_share_tenths_bound(part as nat, whole as nat);
    }
    if whole == 0 {
        return 0;
    }
    let n: u128 = (part as u128) * 1000;
    let q: u128 = n / whole;
    let r: u128 = n % whole;
    let rest: u128 = whole - r;
    if r > rest || (r == rest && q % 2 == 1) {
        q + 1
    } else {
        q
    }
}

/// A share in tenths of a percent, written with one fractional digit and a
/// percent sign, as in `33.3%`.
pub open spec fn percent_text(tenths: nat) -> Seq<char> {
    decimal(tenths / 10) + seq!['.'] + decimal(tenths % 10) + seq!['%']
}

/// Appends [`percent_text`] of `tenths` to `out`.
pub fn push_percent(out: &mut String, tenths: u128)
    ensures
        final(out)@ == old(out)@ + percent_text(tenths as nat),
{
    proof {
        reveal_strlit(".");
        reveal_strlit("%");
    }
    push_decimal(out, tenths / 10);
    out.append(".");
    push_decimal(out, tenths % 10);
    out.append("%");
    assert("."@ =~= seq!['.']);
    assert("%"@ =~= seq!['%']);
    assert(out@ =~= old(out)@ + percent_text(tenths as nat));
}

/// Whether `needle` stands in `hay` at offset `i`.
pub open spec fn occurs_at(hay: Seq<u8>, needle: Seq<u8>, i: int) -> bool {
    &&& 0 <= i
    &&& i + needle.len() <= hay.len()
    &&& forall|k: int| 0 <= k < needle.len() ==> hay[i + k] == needle[k]
}

/// Whether `needle` occurs anywhere in `hay` as a contiguous run of bytes.
/// The empty needle occurs in every haystack.
pub open spec fn contains_bytes(hay: Seq<u8>, needle: Seq<u8>) -> bool {
    exists|i: int| occurs_at(hay, needle, i)
}

/// Whether `needle` stands in `hay` at offset `i`.
fn matches_at(hay: &[u8], needle: &[u8], i: usize) -> (r: bool)
    requires
        i + needle@.len() <= hay@.len(),
    ensures
        r == occurs_at(hay@, needle@, i as int),
{
    let n: usize = hay.len();
    let mut k: usize = 0;
    while k < needle.len()
        invariant
            k <= needle@.len(),
            i + needle@.len() <= hay@.len(),
            hay@.len() == n,
            forall|j: int| 0 <= j < k ==> hay@[i + j] == needle@[j],
        decreases needle@.len() - k,
    {
        if hay[i + k] != needle[k] {
            return false;
        }
        k += 1;
    }
    true
}

/// Searches `hay` for `needle`.
pub fn find_bytes(hay: &[u8], needle: &[u8]) -> (r: bool)
    ensures
        r == contains_bytes(hay@, needle@),
{
    if needle.len() > hay.len() {
        return false;
    }
    let last: usize = hay.len() - needle.len();
    let mut i: usize = 0;
    loop
        invariant
            last == hay@.len() - needle@.len(),
            i <= last,
            forall|j: int| 0 <= j < i ==> !occurs_at(hay@, needle@, j),
        decreases last - i,
    {
        if matches_at(hay, needle, i) {
            return true;
        }
        if i == last {
            return false;
        }
        i += 1;
    }
}

/// Appends `bytes` to `out`.
pub fn push_bytes(out: &mut Vec<u8>, bytes: &[u8])
    ensures
        final(out)@ == old(out)@ + bytes@,
{
    let n: usize = bytes.len();
    let mut i: usize = 0;
    while i < n
        invariant
            n == bytes@.len(),
            i <= n,
            out@ == old(out)@ + bytes@.take(i as int),
        decreases n - i,
    {
        out.push(bytes[i]);
        assert(bytes@.take(i + 1) =~= bytes@.take(i as int).push(bytes@[i as int]));
        assert(out@ =~= old(out)@ + bytes@.take(i + 1));
        i += 1;
    }
    assert(bytes@.take(n as int) =~= bytes@);
}

/// The position of the first `byte` in `bytes`, or the length of `bytes`
/// where there is none.
pub open spec fn first_index(bytes: Seq<u8>, byte: u8) -> int
    decreases bytes.len(),
{
    if bytes.len() == 0 {
        0
    } else if bytes[0] == byte {
        0
    } else {
        1 + first_index(bytes.drop_first(), byte)
    }
}

/// [`first_index`] is the one position before which `byte` does not occur
/// and at which, unless it is the end, it does.
pub proof fn lemma_first_index(bytes: Seq<u8>, byte: u8, at: int)
    requires
        0 <= at <= bytes.len(),
        forall|j: int| 0 <= j < at ==> bytes[j] != byte,
        at < bytes.len() ==> bytes[at] == byte,
    ensures
        first_index(bytes, byte) == at,
    decreases bytes.len(),
{
    if bytes.len() > 0 && at > 0 {
        let rest = bytes.drop_first();
        assert(bytes[0] != byte);
        assert forall|j: int| 0 <= j < at - 1 implies rest[j] != byte by {
            assert(rest[j] == bytes[j + 1]);
        }
        lemma_first_index(rest, byte, at - 1);
    }
}

/// Computes [`first_index`].
pub fn find_byte(bytes: &[u8], byte: u8) -> (at: usize)
    ensures
        at == first_index(bytes@, byte),
        at <= bytes@.len(),
{
    let n: usize = bytes.len();
    let mut i: usize = 0;
    while i < n
        invariant
            n == bytes@.len(),
            i <= n,
            forall|j: int| 0 <= j < i ==> bytes@[j] != byte,
        decreases n - i,
    {
        if bytes[i] == byte {
            proof {
                lemma_first_index(bytes@, byte, i as int);
            }
            return i;
        }
        i += 1;
    }
    proof {
        lemma_first_index(bytes@, byte, n as int);
    }
    n
}

} // verus!
