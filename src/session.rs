//! Capture sessions: their names, and which of them to keep.
//!
//! A session is a directory named by the decimal number of milliseconds
//! since the epoch at which it started. Cleanup keeps the sessions with the
//! numerically largest names and removes the others.

use vstd::prelude::*;
use vstd::relations::injective_on;
use vstd::set_lib::{
    lemma_int_range, lemma_len_subset, lemma_map_size, lemma_subset_equality, set_int_range,
};

verus! {

/// Whether `c` is one of the ASCII digits `0` to `9`.
pub open spec fn is_digit(c: char) -> bool {
    '0' as u32 <= c as u32 <= '9' as u32
}

/// Whether every character of `s` is an ASCII digit.
pub open spec fn all_digits(s: Seq<char>) -> bool {
    forall|i: int| 0 <= i < s.len() ==> is_digit(#[trigger] s[i])
}

/// Value of the digit `c`.
pub open spec fn digit_value(c: char) -> nat {
    (c as u32 - '0' as u32) as nat
}

/// The digit whose value is `d`, for `d < 10`.
pub open spec fn digit_char(d: nat) -> char {
    ((d + '0' as u32) as u32) as char
}

/// Number that the digits `s` denote in decimal.
pub open spec fn decimal_value(s: Seq<char>) -> nat
    decreases s.len(),
{
    if s.len() == 0 {
        0
    } else {
        decimal_value(s.drop_last()) * 10 + digit_value(s.last())
    }
}

/// Decimal digits of `n`, most significant first, without leading zeros.
pub open spec fn decimal_digits(n: nat) -> Seq<char>
    decreases n,
{
    if n < 10 {
        seq![digit_char(n)]
    } else {
        decimal_digits(n / 10).push(digit_char(n % 10))
    }
}

/// Relies on the `ToString` of `u64`, which goes through its `Display`:
/// the number in decimal, without sign or leading zeros.
#[verifier::external_body]
pub(crate) fn session_id(millis: u64) -> (r: String)
    ensures
        r@ == decimal_digits(millis as nat),
{
    millis.to_string()
}

/// A session's name is a session name, and the number it denotes is the
/// session's start: later sessions rank above earlier ones in cleanup.
pub proof fn session_id_denotes_start(millis: nat)
    ensures
        all_digits(decimal_digits(millis)),
        decimal_value(decimal_digits(millis)) == millis,
    decreases millis,
{
    let d = millis % 10;
    assert(is_digit(digit_char(d)) && digit_value(digit_char(d)) == d);
    let s = decimal_digits(millis);
    if millis < 10 {
        assert(s.drop_last() =~= Seq::<char>::empty());
        assert(s.last() == digit_char(d));
        assert(decimal_value(s) == decimal_value(s.drop_last()) * 10 + digit_value(s.last()));
    } else {
        session_id_denotes_start(millis / 10);
        assert(s.drop_last() == decimal_digits(millis / 10));
        assert(s.last() == digit_char(d));
        assert(decimal_value(s) == decimal_value(s.drop_last()) * 10 + digit_value(s.last()));
        assert(millis == (millis / 10) * 10 + d);
        assert forall|i: int| 0 <= i < s.len() implies is_digit(#[trigger] s[i]) by {
            if i < s.len() - 1 {
                assert(s[i] == decimal_digits(millis / 10)[i]);
            }
        }
    }
}

/// Whether a directory named `name` is a session directory: its name is
/// made of decimal digits only.
pub fn is_session_name(name: &str) -> (r: bool)
    ensures
        r == all_digits(name@),
{
    let n = name.unicode_len();
    let mut i: usize = 0;
    while i < n
        invariant
            n == name@.len(),
            i <= n,
            forall|k: int| 0 <= k < i ==> is_digit(#[trigger] name@[k]),
        decreases n - i,
    {
        let c = name.get_char(i);
        if !('0' as u32 <= c as u32 && c as u32 <= '9' as u32) {
            return false;
        }
        i = i + 1;
    }
    true
}

/// `10` to the power `n`.
pub open spec fn pow10(n: nat) -> nat
    decreases n,
{
    if n == 0 {
        1
    } else {
        10 * pow10((n - 1) as nat)
    }
}

proof fn lemma_pow10_monotonic(m: nat, n: nat)
    requires
        m <= n,
    ensures
        1 <= pow10(m) <= pow10(n),
    decreases n,
{
    if n > m {
        lemma_pow10_monotonic(m, (n - 1) as nat);
    } else if n > 0 {
        lemma_pow10_monotonic(0, (n - 1) as nat);
    }
}

/// Splitting the digits at `k` splits the value into a high and a low part.
proof fn lemma_value_split(s: Seq<char>, k: int)
    requires
        0 <= k <= s.len(),
    ensures
        decimal_value(s) == decimal_value(s.subrange(0, k)) * pow10((s.len() - k) as nat)
            + decimal_value(s.subrange(k, s.len() as int)),
    decreases s.len(),
{
    let n = s.len() as int;
    if k == n {
        assert(s.subrange(0, k) =~= s);
        assert(s.subrange(k, n) =~= Seq::<char>::empty());
        let v = decimal_value(s);
        let p = pow10(0);
        assert(p == 1);
        assert(v == v * p + 0) by (nonlinear_arith)
            requires
                p == 1,
        ;
    } else {
        let t = s.drop_last();
        lemma_value_split(t, k);
        assert(t.subrange(0, k) =~= s.subrange(0, k));
        let r = s.subrange(k, n);
        assert(r.drop_last() =~= t.subrange(k, n - 1));
        let a = decimal_value(s.subrange(0, k));
        let p = pow10((n - 1 - k) as nat);
        let b = decimal_value(t.subrange(k, n - 1));
        let d = digit_value(s.last());
        assert(r.last() == s.last());
        assert(decimal_value(r) == b * 10 + d);
        assert(pow10((n - k) as nat) == 10 * p);
        assert((a * p + b) * 10 + d == a * (10 * p) + (b * 10 + d)) by (nonlinear_arith);
    }
}

/// Digits denote less than `10` to the power of their count.
proof fn lemma_value_bound(s: Seq<char>)
    requires
        all_digits(s),
    ensures
        decimal_value(s) < pow10(s.len()),
    decreases s.len(),
{
    if s.len() > 0 {
        let t = s.drop_last();
        assert(all_digits(t)) by {
            assert forall|i: int| 0 <= i < t.len() implies is_digit(#[trigger] t[i]) by {
                assert(t[i] == s[i]);
            }
        }
        lemma_value_bound(t);
        assert(is_digit(s[s.len() - 1]));
        let v = decimal_value(t);
        let p = pow10((s.len() - 1) as nat);
        assert(v * 10 + 9 < 10 * p) by (nonlinear_arith)
            requires
                v < p,
        ;
    }
}

/// Zeros denote zero.
proof fn lemma_zeros_value(s: Seq<char>)
    requires
        forall|i: int| 0 <= i < s.len() ==> #[trigger] s[i] as u32 == '0' as u32,
    ensures
        decimal_value(s) == 0,
    decreases s.len(),
{
    if s.len() > 0 {
        let t = s.drop_last();
        assert forall|i: int| 0 <= i < t.len() implies #[trigger] t[i] as u32 == '0' as u32 by {
            assert(t[i] == s[i]);
        }
        lemma_zeros_value(t);
        assert(s[s.len() - 1] as u32 == '0' as u32);
    }
}

/// Leading zeros do not change the value.
proof fn lemma_leading_zeros(s: Seq<char>, k: int)
    requires
        0 <= k <= s.len(),
        forall|i: int| 0 <= i < k ==> #[trigger] s[i] as u32 == '0' as u32,
    ensures
        decimal_value(s) == decimal_value(s.subrange(k, s.len() as int)),
{
    lemma_value_split(s, k);
    let z = s.subrange(0, k);
    assert forall|i: int| 0 <= i < z.len() implies #[trigger] z[i] as u32 == '0' as u32 by {
        assert(z[i] == s[i]);
    }
    lemma_zeros_value(z);
}

/// Digits that do not start with a zero denote at least `10` to the power
/// of their count less one.
proof fn lemma_value_lower_bound(s: Seq<char>)
    requires
        s.len() > 0,
        all_digits(s),
        s[0] as u32 != '0' as u32,
    ensures
        decimal_value(s) >= pow10((s.len() - 1) as nat),
{
    lemma_value_split(s, 1);
    let h = s.subrange(0, 1);
    assert(h.drop_last() =~= Seq::<char>::empty());
    assert(is_digit(s[0]));
    assert(h.last() == s[0]);
    assert(decimal_value(h) >= 1);
    let p = pow10((s.len() - 1) as nat);
    let v = decimal_value(h);
    assert(v * p >= p) by (nonlinear_arith)
        requires
            v >= 1,
            p >= 0,
    ;
}

/// Of two digit sequences of one length, the one with the smaller digit at
/// the first place where they differ denotes the smaller number.
proof fn lemma_first_difference(a: Seq<char>, b: Seq<char>, k: int)
    requires
        a.len() == b.len(),
        all_digits(a),
        all_digits(b),
        0 <= k < a.len(),
        a.subrange(0, k) == b.subrange(0, k),
        digit_value(a[k]) < digit_value(b[k]),
    ensures
        decimal_value(a) < decimal_value(b),
{
    let n = a.len() as int;
    lemma_value_split(a, k + 1);
    lemma_value_split(b, k + 1);
    let ta = a.subrange(k + 1, n);
    let tb = b.subrange(k + 1, n);
    assert(all_digits(ta)) by {
        assert forall|i: int| 0 <= i < ta.len() implies is_digit(#[trigger] ta[i]) by {
            assert(ta[i] == a[k + 1 + i]);
        }
    }
    lemma_value_bound(ta);
    assert(a.subrange(0, k + 1).drop_last() =~= a.subrange(0, k));
    assert(b.subrange(0, k + 1).drop_last() =~= b.subrange(0, k));
    let ha = decimal_value(a.subrange(0, k + 1));
    let hb = decimal_value(b.subrange(0, k + 1));
    assert(ha + 1 <= hb);
    let p = pow10((n - k - 1) as nat);
    let la = decimal_value(ta);
    let lb = decimal_value(tb);
    assert(ha * p + la < hb * p + lb) by (nonlinear_arith)
        requires
            ha + 1 <= hb,
            la < p,
            lb >= 0,
    ;
}

/// What the digits of `s` after its `k` leading zeros tell of its value.
proof fn lemma_significant_digits(s: Seq<char>, k: int)
    requires
        all_digits(s),
        0 <= k <= s.len(),
        forall|i: int| 0 <= i < k ==> #[trigger] s[i] as u32 == '0' as u32,
        k < s.len() ==> s[k] as u32 != '0' as u32,
    ensures
        ({
            let t = s.subrange(k, s.len() as int);
            &&& all_digits(t)
            &&& decimal_value(s) == decimal_value(t)
            &&& decimal_value(t) < pow10(t.len())
            &&& t.len() > 0 ==> decimal_value(t) >= pow10((t.len() - 1) as nat)
        }),
{
    let t = s.subrange(k, s.len() as int);
    lemma_leading_zeros(s, k);
    assert forall|i: int| 0 <= i < t.len() implies is_digit(#[trigger] t[i]) by {
        assert(t[i] == s[k + i]);
    }
    lemma_value_bound(t);
    if t.len() > 0 {
        lemma_value_lower_bound(t);
    }
}

/// Number of leading zeros of `s`.
fn leading_zeros(s: &str) -> (k: usize)
    ensures
        k <= s@.len(),
        forall|i: int| 0 <= i < k ==> #[trigger] s@[i] as u32 == '0' as u32,
        k < s@.len() ==> s@[k as int] as u32 != '0' as u32,
{
    let n = s.unicode_len();
    let mut k: usize = 0;
    while k < n && s.get_char(k) as u32 == '0' as u32
        invariant
            n == s@.len(),
            k <= n,
            forall|i: int| 0 <= i < k ==> #[trigger] s@[i] as u32 == '0' as u32,
        decreases n - k,
    {
        k = k + 1;
    }
    k
}

/// Compares the numbers that two digit strings denote: negative, zero or
/// positive as `a` denotes less than, as much as or more than `b`.
#[verifier::rlimit(60)]
fn compare_decimal(a: &str, b: &str) -> (r: i8)
    requires
        all_digits(a@),
        all_digits(b@),
    ensures
        r < 0 <==> decimal_value(a@) < decimal_value(b@),
        r == 0 <==> decimal_value(a@) == decimal_value(b@),
        r > 0 <==> decimal_value(a@) > decimal_value(b@),
{
    let za = leading_zeros(a);
    let zb = leading_zeros(b);
    let la = a.unicode_len() - za;
    let lb = b.unicode_len() - zb;
    let ghost sa = a@.subrange(za as int, a@.len() as int);
    let ghost sb = b@.subrange(zb as int, b@.len() as int);
    proof {
        lemma_significant_digits(a@, za as int);
        lemma_significant_digits(b@, zb as int);
    }
    if la < lb {
        proof {
            lemma_pow10_monotonic(la as nat, (lb - 1) as nat);
        }
        return -1;
    }
    if la > lb {
        proof {
            lemma_pow10_monotonic(lb as nat, (la - 1) as nat);
        }
        return 1;
    }
    let mut k: usize = 0;
    while k < la
        invariant
            la == lb,
            la == sa.len(),
            lb == sb.len(),
            za + la == a@.len() <= usize::MAX,
            zb + lb == b@.len() <= usize::MAX,
            sa == a@.subrange(za as int, a@.len() as int),
            sb == b@.subrange(zb as int, b@.len() as int),
            all_digits(sa),
            all_digits(sb),
            decimal_value(a@) == decimal_value(sa),
            decimal_value(b@) == decimal_value(sb),
            k <= la,
            sa.subrange(0, k as int) == sb.subrange(0, k as int),
        decreases la - k,
    {
        let ca = a.get_char(za + k);
        let cb = b.get_char(zb + k);
        assert(sa[k as int] == ca && sb[k as int] == cb);
        assert(is_digit(sa[k as int]) && is_digit(sb[k as int]));
        if (ca as u32) < (cb as u32) {
            proof {
                lemma_first_difference(sa, sb, k as int);
            }
            return -1;
        }
        if (ca as u32) > (cb as u32) {
            proof {
                lemma_first_difference(sb, sa, k as int);
            }
            return 1;
        }
        assert(sa.subrange(0, k + 1) =~= sb.subrange(0, k + 1)) by {
            assert(sa.subrange(0, k + 1) =~= sa.subrange(0, k as int).push(ca));
            assert(sb.subrange(0, k + 1) =~= sb.subrange(0, k as int).push(cb));
        }
        k = k + 1;
    }
    assert(sa =~= sa.subrange(0, la as int));
    assert(sb =~= sb.subrange(0, lb as int));
    0
}

/// Whether the entry at `j` of a directory listing ranks above the entry at
/// `i`: it is a session, and it denotes a larger number, or the same number
/// and is listed first.
pub open spec fn outranks(names: Seq<String>, j: int, i: int) -> bool {
    &&& all_digits(names[j]@)
    &&& (decimal_value(names[j]@) > decimal_value(names[i]@) || (decimal_value(names[j]@)
        == decimal_value(names[i]@) && j < i))
}

/// Number of entries among the first `upto` that outrank the entry at `i`.
pub open spec fn count_outranking(names: Seq<String>, i: int, upto: int) -> nat
    decreases upto,
{
    if upto <= 0 {
        0
    } else {
        count_outranking(names, i, upto - 1) + if outranks(names, upto - 1, i) {
            1nat
        } else {
            0nat
        }
    }
}

/// Number of sessions in the listing that rank above the entry at `i`.
pub open spec fn session_rank(names: Seq<String>, i: int) -> nat {
    count_outranking(names, i, names.len() as int)
}

/// Whether cleanup that keeps `retain_count` sessions removes the entry at
/// `i`: it is a session and `retain_count` or more sessions rank above it.
/// A `retain_count` of zero disables cleanup.
pub open spec fn is_removed(names: Seq<String>, retain_count: nat, i: int) -> bool {
    &&& retain_count > 0
    &&& all_digits(names[i]@)
    &&& session_rank(names, i) >= retain_count
}

/// Where every entry that outranks `m` also outranks `i`, and `m` itself
/// does, `i` is outranked by more entries than `m`.
proof fn lemma_count_dominated(names: Seq<String>, i: int, m: int, upto: int)
    requires
        0 <= upto <= names.len(),
        0 <= m < names.len(),
        outranks(names, m, i),
        forall|j: int| 0 <= j < names.len() && #[trigger] outranks(names, j, m) ==> outranks(names, j, i),
    ensures
        count_outranking(names, i, upto) >= count_outranking(names, m, upto) + if m < upto {
            1nat
        } else {
            0nat
        },
    decreases upto,
{
    if upto > 0 {
        lemma_count_dominated(names, i, m, upto - 1);
        assert(!outranks(names, m, m));
    }
}

/// Cleanup keeps the most recent sessions: a session that it keeps has a
/// name at least as large, as a number, as any session that it removes.
pub proof fn kept_sessions_are_newest(names: Seq<String>, retain_count: nat, kept: int, removed: int)
    requires
        0 <= kept < names.len(),
        0 <= removed < names.len(),
        all_digits(names[kept]@),
        !is_removed(names, retain_count, kept),
        is_removed(names, retain_count, removed),
    ensures
        decimal_value(names[kept]@) >= decimal_value(names[removed]@),
{
    if decimal_value(names[kept]@) < decimal_value(names[removed]@) {
        assert forall|j: int|
            0 <= j < names.len() && #[trigger] outranks(names, j, removed) implies outranks(
            names,
            j,
            kept,
        ) by {}
        lemma_count_dominated(names, kept, removed, names.len() as int);
    }
}

/// Positions of the sessions in a listing.
pub open spec fn session_positions(names: Seq<String>) -> Set<int> {
    Set::new(|i: int| 0 <= i < names.len() && all_digits(names[i]@))
}

/// Positions of the sessions that cleanup keeping `retain_count` leaves in place.
pub open spec fn kept_positions(names: Seq<String>, retain_count: nat) -> Set<int> {
    Set::new(
        |i: int|
            0 <= i < names.len() && all_digits(names[i]@) && !is_removed(names, retain_count, i),
    )
}

/// Positions among the first `upto` of entries that outrank the entry at `i`.
spec fn outranking_positions(names: Seq<String>, i: int, upto: int) -> Set<int> {
    Set::new(|j: int| 0 <= j < upto && outranks(names, j, i))
}

proof fn lemma_count_is_size(names: Seq<String>, i: int, upto: int)
    requires
        0 <= upto <= names.len(),
    ensures
        outranking_positions(names, i, upto).finite(),
        count_outranking(names, i, upto) == outranking_positions(names, i, upto).len(),
    decreases upto,
{
    if upto == 0 {
        assert(outranking_positions(names, i, upto) =~= Set::empty());
    } else {
        lemma_count_is_size(names, i, upto - 1);
        let prev = outranking_positions(names, i, upto - 1);
        assert(!prev.contains(upto - 1));
        if outranks(names, upto - 1, i) {
            assert(outranking_positions(names, i, upto) =~= prev.insert(upto - 1));
        } else {
            assert(outranking_positions(names, i, upto) =~= prev);
        }
    }
}

proof fn lemma_session_positions_finite(names: Seq<String>)
    ensures
        session_positions(names).finite(),
        session_positions(names).len() <= names.len(),
{
    lemma_int_range(0, names.len() as int);
    lemma_len_subset(session_positions(names), set_int_range(0, names.len() as int));
}

/// Sessions have distinct ranks, which are exactly `0` up to the number of sessions.
proof fn lemma_ranks_enumerate(names: Seq<String>)
    ensures
        injective_on(|i: int| session_rank(names, i) as int, session_positions(names)),
        session_positions(names).map(|i: int| session_rank(names, i) as int) =~= set_int_range(
            0,
            session_positions(names).len() as int,
        ),
{
    let sessions = session_positions(names);
    let rank = |i: int| session_rank(names, i) as int;
    let n = names.len() as int;
    lemma_session_positions_finite(names);
    let count = sessions.len() as int;
    assert forall|i: int, m: int|
        sessions.contains(i) && sessions.contains(m) && i != m && outranks(names, m, i) implies
        #[trigger] session_rank(names, i) > #[trigger] session_rank(names, m) by {
        assert forall|j: int|
            0 <= j < n && #[trigger] outranks(names, j, m) implies outranks(names, j, i) by {}
        lemma_count_dominated(names, i, m, n);
    }
    assert(injective_on(rank, sessions)) by {
        assert forall|i: int, m: int|
            sessions.contains(i) && sessions.contains(m) && #[trigger] rank(i) == #[trigger] rank(
                m,
            ) implies i == m by {
            if i != m {
                if !outranks(names, m, i) {
                    assert(outranks(names, i, m));
                }
            }
        }
    }
    assert forall|i: int| sessions.contains(i) implies 0 <= #[trigger] rank(i) < count by {
        lemma_count_is_size(names, i, n);
        assert(outranking_positions(names, i, n).subset_of(sessions.remove(i)));
        lemma_len_subset(outranking_positions(names, i, n), sessions.remove(i));
    }
    let image = sessions.map(rank);
    assert(image.subset_of(set_int_range(0, count)));
    lemma_map_size(sessions, image, rank);
    lemma_int_range(0, count);
    lemma_subset_equality(image, set_int_range(0, count));
}

/// Cleanup keeps `retain_count` sessions, or every session where there are
/// no more than that; a `retain_count` of zero keeps every session.
pub proof fn cleanup_keeps_retain_count(names: Seq<String>, retain_count: nat)
    ensures
        retain_count == 0 ==> kept_positions(names, retain_count) == session_positions(names),
        kept_positions(names, retain_count).len() == if retain_count == 0 || session_positions(
            names,
        ).len() <= retain_count {
            session_positions(names).len()
        } else {
            retain_count
        },
{
    let sessions = session_positions(names);
    let kept = kept_positions(names, retain_count);
    lemma_session_positions_finite(names);
    if retain_count == 0 {
        assert(kept =~= sessions);
    } else {
        lemma_ranks_enumerate(names);
        let rank = |i: int| session_rank(names, i) as int;
        let bound = if sessions.len() <= retain_count {
            sessions.len() as int
        } else {
            retain_count as int
        };
        assert(kept.subset_of(sessions));
        lemma_len_subset(kept, sessions);
        assert(injective_on(rank, kept));
        assert forall|r: int| #[trigger] kept.map(rank).contains(r) <==> 0 <= r < bound by {
            if 0 <= r < bound {
                assert(sessions.map(rank).contains(r));
                let i = choose|i: int| sessions.contains(i) && rank(i) == r;
                assert(kept.contains(i));
            }
            if kept.map(rank).contains(r) {
                let i = choose|i: int| kept.contains(i) && rank(i) == r;
                assert(sessions.map(rank).contains(r));
            }
        }
        assert(kept.map(rank) =~= set_int_range(0, bound));
        lemma_map_size(kept, set_int_range(0, bound), rank);
        lemma_int_range(0, bound);
    }
}

/// Positions, in increasing order, of the entries of a listing of the
/// screenshot directory that cleanup removes: every session but the
/// `retain_count` ones with the numerically largest names.
pub fn sessions_to_remove(names: &Vec<String>, retain_count: usize) -> (r: Vec<usize>)
    ensures
        forall|k: int|
            0 <= k < r.len() ==> #[trigger] r@[k] < names.len() && is_removed(
                names@,
                retain_count as nat,
                r@[k] as int,
            ),
        forall|k1: int, k2: int| 0 <= k1 < k2 < r.len() ==> r@[k1] < r@[k2],
        forall|i: int|
            0 <= i < names.len() && #[trigger] is_removed(names@, retain_count as nat, i)
                ==> r@.contains(i as usize),
{
    let mut r: Vec<usize> = Vec::new();
    if retain_count == 0 {
        return r;
    }
    let n = names.len();
    let mut sessions: Vec<bool> = Vec::new();
    for i in 0..n
        invariant
            n == names.len(),
            sessions@.len() == i,
            forall|k: int| 0 <= k < i ==> sessions@[k] == all_digits(#[trigger] names@[k]@),
    {
        sessions.push(is_session_name(names[i].as_str()));
    }
    for i in 0..n
        invariant
            n == names.len(),
            retain_count > 0,
            sessions@.len() == n,
            forall|k: int| 0 <= k < n ==> sessions@[k] == all_digits(#[trigger] names@[k]@),
            forall|k: int|
                0 <= k < r.len() ==> #[trigger] r@[k] < i && is_removed(
                    names@,
                    retain_count as nat,
                    r@[k] as int,
                ),
            forall|k1: int, k2: int| 0 <= k1 < k2 < r.len() ==> r@[k1] < r@[k2],
            forall|m: int|
                0 <= m < i && #[trigger] is_removed(names@, retain_count as nat, m)
                    ==> r@.contains(m as usize),
    {
        if sessions[i] {
            let mut above: usize = 0;
            for j in 0..n
                invariant
                    n == names.len(),
                    i < n,
                    sessions@.len() == n,
                    forall|k: int| 0 <= k < n ==> sessions@[k] == all_digits(#[trigger] names@[k]@),
                    all_digits(names@[i as int]@),
                    above == count_outranking(names@, i as int, j as int),
                    above <= j,
            {
                if sessions[j] {
                    let c = compare_decimal(names[j].as_str(), names[i].as_str());
                    if c > 0 || (c == 0 && j < i) {
                        above = above + 1;
                    }
                }
            }
            if above >= retain_count {
                let ghost before = r@;
                r.push(i);
                assert(r@[r.len() - 1] == i);
                assert forall|m: int|
                    0 <= m <= i && #[trigger] is_removed(
                        names@,
                        retain_count as nat,
                        m,
                    ) implies r@.contains(m as usize) by {
                    if m < i {
                        let k = choose|k: int| 0 <= k < before.len() && before[k] == m as usize;
                        assert(r@[k] == m as usize);
                    }
                }
            }
        }
    }
    r
}

/// Reads a yes/no setting from the environment: unset, or set to anything
/// but `0`, means yes.
pub fn env_flag_enabled(value: Option<&str>) -> (r: bool)
    ensures
        r == match value {
            None => true,
            Some(v) => v@ != seq!['0'],
        },
{
    match value {
        None => true,
        Some(v) => {
            if v.unicode_len() == 1 && v.get_char(0) == '0' {
                assert(v@ =~= seq!['0']);
                false
            } else {
                true
            }
        },
    }
}

} // verus!
