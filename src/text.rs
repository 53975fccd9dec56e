use vstd::prelude::*;

verus! {

/// Whether `c` separates tokens (Unicode's White_Space property).
pub uninterp spec fn white_space(c: char) -> bool;

/// Relies on `char::is_whitespace`: true exactly for the characters with
/// Unicode's White_Space property, a function of `c` alone.
#[verifier::external_body]
fn is_space(c: char) -> (r: bool)
    ensures
        r == white_space(c),
{
    c.is_whitespace()
}

/// The upper-case form of a character sequence (Unicode's full mapping).
pub uninterp spec fn upper_of(s: Seq<char>) -> Seq<char>;

/// Relies on `str::to_uppercase`: the upper-case mapping of the characters,
/// a function of the characters alone.
#[verifier::external_body]
pub(crate) fn to_upper(t: &Vec<char>) -> (r: Vec<char>)
    ensures
        r@ == upper_of(t@),
{
    let s: String = t.iter().collect();
    s.to_uppercase().chars().collect()
}

/// Reads `s` from left to right; yields the tokens completed so far and the
/// characters of the token still open.
pub open spec fn scan(s: Seq<char>) -> (Seq<Seq<char>>, Seq<char>)
    decreases s.len(),
{
    if s.len() == 0 {
        (seq![], seq![])
    } else {
        let (done, open) = scan(s.drop_last());
        let c = s.last();
        if !white_space(c) {
            (done, open.push(c))
        } else if open.len() > 0 {
            (done.push(open), seq![])
        } else {
            (done, open)
        }
    }
}

/// The maximal runs of non-whitespace characters of `s`, in order.
pub open spec fn tokens_of(s: Seq<char>) -> Seq<Seq<char>> {
    let (done, open) = scan(s);
    if open.len() > 0 {
        done.push(open)
    } else {
        done
    }
}

/// The character sequences held by a vector of tokens.
pub open spec fn views(v: Seq<Vec<char>>) -> Seq<Seq<char>> {
    v.map_values(|t: Vec<char>| t@)
}

/// Splits `input` into its whitespace-separated tokens.
pub fn split_tokens(input: &str) -> (r: Vec<Vec<char>>)
    ensures
        views(r@) == tokens_of(input@),
{
    let mut done: Vec<Vec<char>> = Vec::new();
    let mut open: Vec<char> = Vec::new();
    let ghost mut read: Seq<char> = seq![];
    for c in it: input.chars()
        invariant
            it.seq() == input@,
            read == it.seq().take(it.index() as int),
            (views(done@), open@) == scan(read),
    {
        let ghost before = read;
        proof {
            read = read.push(c);
            assert(read =~= it.seq().take(it.index() + 1));
            assert(read.drop_last() =~= before);
        }
        if is_space(c) {
            if open.len() > 0 {
                let t = open;
                open = Vec::new();
                let ghost prior = views(done@);
                                done.push(t);
                assert(views(done@) =~= prior.push(t@));
                assert(views(done@) =~= scan(before).0.push(t@));
            }
        } else {
            open.push(c);
        }
    }
    assert(read =~= input@);
    if open.len() > 0 {
        let t = open;
        let ghost prior = views(done@);
                done.push(t);
        assert(views(done@) =~= prior.push(t@));
        assert(views(done@) =~= scan(input@).0.push(t@));
    }
    done
}

/// An ASCII decimal digit.
pub open spec fn is_digit(c: char) -> bool {
    '0' <= c && c <= '9'
}

/// The decimal value of a run of digits.
pub open spec fn digits_value(ds: Seq<char>) -> int
    decreases ds.len(),
{
    if ds.len() == 0 {
        0
    } else {
        10 * digits_value(ds.drop_last()) + (ds.last() as u32 - '0' as u32)
    }
}

/// The digits of a numeric literal: what follows an optional sign.
pub open spec fn unsigned_part(t: Seq<char>) -> Seq<char> {
    if t.len() > 0 && (t[0] == '-' || t[0] == '+') {
        t.drop_first()
    } else {
        t
    }
}

/// The value that a literal denotes, before the range check.
pub open spec fn literal_value(t: Seq<char>) -> int {
    if t.len() > 0 && t[0] == '-' {
        -digits_value(unsigned_part(t))
    } else {
        digits_value(unsigned_part(t))
    }
}

/// A signed 32-bit decimal literal: an optional `+` or `-`, then one or more
/// ASCII digits, with a value that fits in `i32`.
pub open spec fn parse_int(t: Seq<char>) -> Option<i32> {
    let ds = unsigned_part(t);
    let v = literal_value(t);
    if ds.len() > 0 && (forall|i: int| 0 <= i < ds.len() ==> is_digit(#[trigger] ds[i]))
        && i32::MIN <= v <= i32::MAX {
        Some(v as i32)
    } else {
        None
    }
}

/// Appending digits never makes the value smaller.
proof fn lemma_digits_grow(ds: Seq<char>, k: int)
    requires
        0 <= k <= ds.len(),
        forall|i: int| 0 <= i < ds.len() ==> is_digit(#[trigger] ds[i]),
    ensures
        digits_value(ds.take(k)) <= digits_value(ds),
        0 <= digits_value(ds),
    decreases ds.len(),
{
    if ds.len() > 0 {
        let shorter = ds.drop_last();
        if k < ds.len() {
            assert(shorter.take(k) =~= ds.take(k));
            lemma_digits_grow(shorter, k);
        } else {
            assert(ds.take(k) =~= ds);
            lemma_digits_grow(shorter, 0);
        }
    }
}

/// Reads a signed 32-bit decimal literal.
pub fn parse_number(t: &Vec<char>) -> (r: Option<i32>)
    ensures
        r == parse_int(t@),
{
    let n = t.len();
    if n == 0 {
        return None;
    }
    let negative = t[0] == '-';
    let start: usize = if t[0] == '-' || t[0] == '+' { 1 } else { 0 };
    let ghost ds = unsigned_part(t@);
    assert(ds =~= t@.subrange(start as int, n as int));
    if start == n {
        return None;
    }
    let mut v: i64 = 0;
    let mut i: usize = start;
    while i < n
        invariant
            start <= i <= n,
            n == t.len(),
            ds == t@.subrange(start as int, n as int),
            ds == unsigned_part(t@),
            negative == (t@[0] == '-'),
            forall|j: int| 0 <= j < i - start ==> is_digit(#[trigger] ds[j]),
            v == digits_value(ds.take(i - start)),
            0 <= v <= 0x8000_0000,
        decreases n - i,
    {
        let c = t[i];
        if !('0' <= c && c <= '9') {
            assert(!is_digit(ds[i - start]));
            assert(parse_int(t@) is None);
            return None;
        }
        assert(ds.take(i - start + 1).drop_last() =~= ds.take(i - start));
        v = v * 10 + (c as u32 - '0' as u32) as i64;
        i = i + 1;
        if v > 0x8000_0000 {
            proof {
                if forall|j: int| 0 <= j < ds.len() ==> is_digit(#[trigger] ds[j]) {
                    lemma_digits_grow(ds, i - start);
                    assert(digits_value(ds) > 0x8000_0000);
                }
                assert(parse_int(t@) is None);
            }
            return None;
        }
    }
    assert(ds.take(n - start) =~= ds);
    let value: i64 = if negative { -v } else { v };
    if value > i32::MAX as i64 {
        None
    } else {
        Some(value as i32)
    }
}

/// Whether two character sequences are equal.
pub fn same_chars(a: &Vec<char>, b: &Vec<char>) -> (r: bool)
    ensures
        r == (a@ == b@),
{
    if a.len() != b.len() {
        return false;
    }
    let mut i: usize = 0;
    while i < a.len()
        invariant
            a.len() == b.len(),
            i <= a.len(),
            forall|j: int| 0 <= j < i ==> a@[j] == b@[j],
        decreases a.len() - i,
    {
        if a[i] != b[i] {
            return false;
        }
        i = i + 1;
    }
    assert(a@ =~= b@);
    true
}

/// A copy of a token.
pub fn copy_chars(t: &Vec<char>) -> (r: Vec<char>)
    ensures
        r@ == t@,
{
    let mut r: Vec<char> = Vec::new();
    let mut i: usize = 0;
    while i < t.len()
        invariant
            i <= t.len(),
            r@ == t@.take(i as int),
        decreases t.len() - i,
    {
        r.push(t[i]);
        i = i + 1;
        assert(r@ =~= t@.take(i as int));
    }
    assert(t@.take(i as int) =~= t@);
    r
}

} // verus!
