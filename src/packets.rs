//! Packet ids written as `/`-separated signed integers, folded with XOR and cubed.
use vstd::prelude::*;

use crate::text::chars_of;

verus! {

/// At most this many ids are accepted in one path.
pub const MAX_IDS: usize = 20;

/// Why a packet path gives no cube.
#[derive(Debug, Clone, Copy, PartialEq, Eq, Structural)]
pub enum PacketError {
    /// A piece between slashes is not a signed 64-bit integer.
    InvalidId,
    /// The path holds more than `MAX_IDS` ids.
    TooManyIds,
    /// The cube of the XOR does not fit in a signed 64-bit integer.
    CubeOutOfRange,
}

/// The magnitude of `i64::MIN`; one more than that of `i64::MAX`.
const MAGNITUDE_LIMIT: u64 = 0x8000_0000_0000_0000;

pub open spec fn is_digit(c: char) -> bool {
    '0' <= c && c <= '9'
}

pub open spec fn all_digits(s: Seq<char>) -> bool {
    forall|i: int| 0 <= i < s.len() ==> is_digit(#[trigger] s[i])
}

/// The value of a run of decimal digits, most significant first.
pub open spec fn digits_value(s: Seq<char>) -> int
    decreases s.len(),
{
    if s.len() == 0 {
        0
    } else {
        digits_value(s.drop_last()) * 10 + (s.last() as int - '0' as int)
    }
}

/// The integer that `s` writes: an optional `+` or `-`, then one or more
/// decimal digits, nothing else.
pub open spec fn integer_value(s: Seq<char>) -> Option<int> {
    if s.len() > 0 && (s[0] == '-' || s[0] == '+') {
        let d = s.drop_first();
        if d.len() > 0 && all_digits(d) {
            Some(if s[0] == '-' { -digits_value(d) } else { digits_value(d) })
        } else {
            None
        }
    } else if s.len() > 0 && all_digits(s) {
        Some(digits_value(s))
    } else {
        None
    }
}

/// `s` read as an `i64`, as `str::parse::<i64>` reads it.
pub open spec fn parse_i64(s: Seq<char>) -> Option<i64> {
    match integer_value(s) {
        Some(v) => if i64::MIN <= v <= i64::MAX { Some(v as i64) } else { None },
        None => None,
    }
}

/// The pieces of `s` between `/` separators, as `str::split('/')` yields them:
/// always at least one, possibly empty.
pub open spec fn pieces(s: Seq<char>) -> Seq<Seq<char>>
    decreases s.len(),
{
    if s.len() == 0 {
        seq![Seq::empty()]
    } else {
        let p = pieces(s.drop_last());
        if s.last() == '/' {
            p.push(Seq::empty())
        } else {
            p.update(p.len() - 1, p.last().push(s.last()))
        }
    }
}

/// The ids of a packet path, or `None` when some piece is not an `i64`.
pub open spec fn parse_ids_spec(path: Seq<char>) -> Option<Seq<i64>> {
    let ps = pieces(path);
    if forall|i: int| 0 <= i < ps.len() ==> (#[trigger] parse_i64(ps[i])) is Some {
        Some(ps.map_values(|p: Seq<char>| parse_i64(p)->0))
    } else {
        None
    }
}

/// Bitwise XOR of all ids, folded left to right; zero for no ids.
pub open spec fn xor_fold(ids: Seq<i64>) -> i64
    decreases ids.len(),
{
    if ids.len() == 0 {
        0
    } else {
        xor_fold(ids.drop_last()) ^ ids.last()
    }
}

pub open spec fn cube(x: int) -> int {
    x * x * x
}

/// What a packet path gives: the cube of the XOR of its ids, or why not.
pub open spec fn packet_cube_spec(path: Seq<char>) -> Result<i64, PacketError> {
    match parse_ids_spec(path) {
        None => Err(PacketError::InvalidId),
        Some(ids) => if ids.len() > MAX_IDS {
            Err(PacketError::TooManyIds)
        } else if i64::MIN <= cube(xor_fold(ids) as int) <= i64::MAX {
            Ok(cube(xor_fold(ids) as int) as i64)
        } else {
            Err(PacketError::CubeOutOfRange)
        },
    }
}

proof fn lemma_pieces_nonempty(s: Seq<char>)
    ensures
        pieces(s).len() >= 1,
    decreases s.len(),
{
    if s.len() > 0 {
        lemma_pieces_nonempty(s.drop_last());
    }
}

proof fn lemma_digits_value_nonneg(s: Seq<char>)
    requires
        all_digits(s),
    ensures
        digits_value(s) >= 0,
    decreases s.len(),
{
    if s.len() > 0 {
        lemma_digits_value_nonneg(s.drop_last());
        assert(is_digit(s[s.len() - 1]));
    }
}

/// Appending digits never makes a run of digits smaller.
proof fn lemma_digits_value_grows(s: Seq<char>, k: int)
    requires
        all_digits(s),
        0 <= k <= s.len(),
    ensures
        digits_value(s.take(k)) <= digits_value(s),
    decreases s.len() - k,
{
    if k < s.len() {
        lemma_digits_value_grows(s, k + 1);
        assert(s.take(k + 1).drop_last() =~= s.take(k));
        assert(is_digit(s[k]));
        lemma_digits_value_nonneg(s.take(k));
    } else {
        assert(s.take(k) =~= s);
    }
}

/// Reads one piece as an `i64`, exactly as `str::parse::<i64>` does.
pub fn parse_id(p: &Vec<char>) -> (r: Option<i64>)
    ensures
        r == parse_i64(p@),
{
    let n = p.len();
    if n == 0 {
        return None;
    }
    let negative = p[0] == '-';
    let start: usize = if p[0] == '-' || p[0] == '+' { 1 } else { 0 };
    if start == n {
        return None;
    }
    let ghost d = p@.subrange(start as int, n as int);
    let mut mag: u64 = 0;
    let mut i: usize = start;
    while i < n
        invariant
            start <= i <= n,
            n == p@.len(),
            start == 0 || start == 1,
            (start == 1) == (p@[0] == '-' || p@[0] == '+'),
            negative == (p@[0] == '-'),
            start < n,
            d == p@.subrange(start as int, n as int),
            all_digits(d.take(i - start)),
            mag as int == digits_value(d.take(i - start)),
            mag <= MAGNITUDE_LIMIT,
        decreases n - i,
    {
        let c = p[i];
        if !('0' <= c && c <= '9') {
            assert(d[i - start] == c);
            assert(!all_digits(d));
            if start == 0 {
                assert(p@[i as int] == c);
            } else {
                assert(d =~= p@.drop_first());
            }
            return None;
        }
        let digit: u64 = (c as u32 - '0' as u32) as u64;
        assert(digit <= 9);
        assert(d.take(i - start + 1).drop_last() =~= d.take(i - start));
        if mag > (MAGNITUDE_LIMIT - digit) / 10 {
            // The value already exceeds every i64 magnitude: no later digit can bring it back.
            proof {
                assert(mag * 10 + digit > MAGNITUDE_LIMIT) by (nonlinear_arith)
                    requires
                        mag > (MAGNITUDE_LIMIT - digit) / 10,
                        digit <= 9,
                ;
                if all_digits(d) {
                    lemma_digits_value_grows(d, i - start + 1);
                }
                if start == 0 {
                    assert(d =~= p@);
                }
            }
            return None;
        }
        assert(mag * 10 + digit <= MAGNITUDE_LIMIT) by (nonlinear_arith)
            requires
                mag <= (MAGNITUDE_LIMIT - digit) / 10,
                digit <= 9,
        ;
        mag = mag * 10 + digit;
        i = i + 1;
    }
    assert(d.take(n - start) =~= d);
    if start == 0 {
        assert(d =~= p@);
    } else {
        assert(d =~= p@.drop_first());
    }
    if negative {
        if mag == MAGNITUDE_LIMIT {
            Some(i64::MIN)
        } else {
            Some(-(mag as i64))
        }
    } else if mag < MAGNITUDE_LIMIT {
        Some(mag as i64)
    } else {
        None
    }
}

/// Splits a packet path at each `/` and reads every piece as an `i64`;
/// `None` as soon as one piece is not an integer.
pub fn parse_ids(path: &str) -> (r: Option<Vec<i64>>)
    ensures
        match r {
            Some(ids) => parse_ids_spec(path@) == Some(ids@),
            None => parse_ids_spec(path@) is None,
        },
{
    let cs = chars_of(path);
    let n = cs.len();
    let mut ids: Vec<i64> = Vec::new();
    let mut cur: Vec<char> = Vec::new();
    let mut ok = true;
    let ghost mut done: Seq<Seq<char>> = Seq::empty();
    let mut i: usize = 0;
    while i < n
        invariant
            n == cs@.len(),
            cs@ == path@,
            i <= n,
            pieces(cs@.take(i as int)) == done.push(cur@),
            ok ==> ids@.len() == done.len(),
            ok ==> forall|k: int| 0 <= k < done.len() ==> parse_i64(done[k]) == Some(#[trigger] ids@[k]),
            !ok ==> exists|k: int| 0 <= k < done.len() && (#[trigger] parse_i64(done[k])) is None,
        decreases n - i,
    {
        let c = cs[i];
        let ghost was_ok = ok;
        assert(cs@.take(i + 1).drop_last() =~= cs@.take(i as int));
        if c == '/' {
            if ok {
                match parse_id(&cur) {
                    Some(v) => {
                        ids.push(v);
                    },
                    None => {
                        ok = false;
                        assert(parse_i64(done.push(cur@)[done.len() as int]) is None);
                    },
                }
            }
            proof {
                let old_done = done;
                done = done.push(cur@);
                if !was_ok {
                    let k = choose|k: int| 0 <= k < old_done.len() && (#[trigger] parse_i64(old_done[k])) is None;
                    if 0 <= k < old_done.len() {
                        assert(done[k] == old_done[k]);
                    }
                } else if !ok {
                    assert(parse_i64(done[old_done.len() as int]) == parse_i64(cur@));
                }
            }
            cur = Vec::new();
        } else {
            cur.push(c);
            assert(done.push(cur@.drop_last()).update(done.len() as int, cur@) =~= done.push(cur@));
        }
        i = i + 1;
    }
    assert(cs@.take(n as int) =~= cs@);
    if !ok {
        proof {
            let k = choose|k: int| 0 <= k < done.len() && (#[trigger] parse_i64(done[k])) is None;
            assert(parse_i64(pieces(path@)[k]) is None);
        }
        return None;
    }
    match parse_id(&cur) {
        Some(v) => {
            ids.push(v);
            let ghost ps = pieces(path@);
            assert(ps == done.push(cur@));
            assert(forall|k: int| 0 <= k < ps.len() ==> (#[trigger] parse_i64(ps[k])) == Some(ids@[k]));
            assert(ids@ =~= ps.map_values(|p: Seq<char>| parse_i64(p)->0));
            Some(ids)
        },
        None => {
            assert(parse_i64(pieces(path@)[done.len() as int]) is None);
            None
        },
    }
}

/// The XOR of all ids, left to right.
pub fn xor_all(ids: &Vec<i64>) -> (r: i64)
    ensures
        r == xor_fold(ids@),
{
    let mut acc: i64 = 0;
    let mut i: usize = 0;
    while i < ids.len()
        invariant
            i <= ids@.len(),
            acc == xor_fold(ids@.take(i as int)),
        decreases ids.len() - i,
    {
        assert(ids@.take(i + 1).drop_last() =~= ids@.take(i as int));
        acc = acc ^ ids[i];
        i = i + 1;
    }
    assert(ids@.take(ids.len() as int) =~= ids@);
    acc
}

/// The cube of `x`, when it fits in an `i64`.
pub fn checked_cube(x: i64) -> (r: Option<i64>)
    ensures
        match r {
            Some(c) => c as int == cube(x as int),
            None => !(i64::MIN <= cube(x as int) <= i64::MAX),
        },
{
    let wide = x as i128;
    assert(0 <= wide * wide <= 0x4000_0000_0000_0000_0000_0000_0000_0000) by (nonlinear_arith)
        requires
            -0x8000_0000_0000_0000 <= wide <= 0x7fff_ffff_ffff_ffff,
    ;
    let square = wide * wide;
    if square > i64::MAX as i128 {
        assert(!(i64::MIN <= cube(x as int) <= i64::MAX)) by (nonlinear_arith)
            requires
                square == x * x,
                square > 0x7fff_ffff_ffff_ffff,
        ;
        return None;
    }
    assert(-0x4000_0000_0000_0000_0000_0000_0000_0000 <= square * wide <= 0x4000_0000_0000_0000_0000_0000_0000_0000)
        by (nonlinear_arith)
        requires
            0 <= square <= 0x7fff_ffff_ffff_ffff,
            -0x8000_0000_0000_0000 <= wide <= 0x7fff_ffff_ffff_ffff,
    ;
    let c = square * wide;
    if c < i64::MIN as i128 || c > i64::MAX as i128 {
        None
    } else {
        Some(c as i64)
    }
}

/// The cube of the XOR of the ids in a packet path such as `4/5/8`.
pub fn packet_cube(path: &str) -> (r: Result<i64, PacketError>)
    ensures
        r == packet_cube_spec(path@),
{
    let ids = match parse_ids(path) {
        Some(ids) => ids,
        None => {
            return Err(PacketError::InvalidId);
        },
    };
    if ids.len() > MAX_IDS {
        return Err(PacketError::TooManyIds);
    }
    match checked_cube(xor_all(&ids)) {
        Some(c) => Ok(c),
        None => Err(PacketError::CubeOutOfRange),
    }
}

proof fn lemma_xor_fold_append(a: Seq<i64>, b: Seq<i64>)
    ensures
        xor_fold(a + b) == xor_fold(a) ^ xor_fold(b),
    decreases b.len(),
{
    let fa = xor_fold(a);
    if b.len() == 0 {
        assert(a + b =~= a);
        assert(fa ^ 0i64 == fa) by (bit_vector);
    } else {
        assert((a + b).drop_last() =~= a + b.drop_last());
        lemma_xor_fold_append(a, b.drop_last());
        let fb = xor_fold(b.drop_last());
        let x = b.last();
        assert((fa ^ fb) ^ x == fa ^ (fb ^ x)) by (bit_vector);
    }
}

proof fn lemma_xor_fold_remove(s: Seq<i64>, k: int)
    requires
        0 <= k < s.len(),
    ensures
        xor_fold(s) == s[k] ^ xor_fold(s.remove(k)),
{
    let front = s.take(k);
    let back = s.skip(k + 1);
    let x = s[k];
    assert(s =~= front + seq![x] + back);
    assert(s.remove(k) =~= front + back);
    lemma_xor_fold_append(front + seq![x], back);
    lemma_xor_fold_append(front, seq![x]);
    lemma_xor_fold_append(front, back);
    assert(seq![x].drop_last() =~= Seq::<i64>::empty());
    assert(0i64 ^ x == x) by (bit_vector);
    assert(xor_fold(Seq::<i64>::empty()) == 0);
    assert(xor_fold(seq![x]) == x);
    let f = xor_fold(front);
    let g = xor_fold(back);
    assert((f ^ x) ^ g == x ^ (f ^ g)) by (bit_vector);
}

/// XOR-folding does not depend on the order of the ids: two lists that hold
/// the same ids, each as many times, fold to the same value.
pub proof fn lemma_xor_fold_permutation(a: Seq<i64>, b: Seq<i64>)
    requires
        a.to_multiset() == b.to_multiset(),
    ensures
        xor_fold(a) == xor_fold(b),
    decreases a.len(),
{
    broadcast use vstd::seq_lib::group_to_multiset_ensures;

    if a.len() == 0 {
        assert(a.to_multiset().len() == 0);
        assert(b.len() == 0);
    } else {
        let x = a.last();
        let rest = a.drop_last();
        assert(a =~= rest.push(x));
        assert(a.to_multiset().count(x) > 0);
        assert(b.contains(x));
        let k = choose|k: int| 0 <= k < b.len() && b[k] == x;
        assert(b.remove(k).to_multiset() =~= rest.to_multiset());
        lemma_xor_fold_permutation(rest, b.remove(k));
        lemma_xor_fold_remove(b, k);
        let f = xor_fold(rest);
        assert(f ^ x == x ^ f) by (bit_vector);
    }
}

/// The answer for a packet path is the cube of the XOR of its ids, whatever
/// order the ids come in: two paths whose ids are the same up to order give
/// the same answer.
pub proof fn lemma_packet_cube_order_free(p: Seq<char>, q: Seq<char>)
    requires
        parse_ids_spec(p) is Some,
        parse_ids_spec(q) is Some,
        parse_ids_spec(p)->0.to_multiset() == parse_ids_spec(q)->0.to_multiset(),
    ensures
        packet_cube_spec(p) == packet_cube_spec(q),
{
    broadcast use vstd::seq_lib::group_to_multiset_ensures;

    let a = parse_ids_spec(p)->0;
    let b = parse_ids_spec(q)->0;
    lemma_xor_fold_permutation(a, b);
    assert(a.len() == a.to_multiset().len());
    assert(b.len() == b.to_multiset().len());
}

} // verus!
