//! Number-aware name ordering, so that `clip2` sorts before `clip10`.

use vstd::prelude::*;
use crate::text::{chars_of, decimal, digit_char, lemma_decimal_len};

verus! {

pub open spec fn is_digit(c: char) -> bool {
    48 <= (c as u32) <= 57
}

pub open spec fn digit_value(c: char) -> nat {
    ((c as u32) - 48) as nat
}

/// How many ASCII digits open `s`.
pub open spec fn digit_run(s: Seq<char>) -> nat
    decreases s.len(),
{
    if s.len() > 0 && is_digit(s[0]) {
        1 + digit_run(s.drop_first())
    } else {
        0
    }
}

pub proof fn lemma_digit_run_bound(s: Seq<char>)
    ensures
        digit_run(s) <= s.len(),
        s.len() > 0 && is_digit(s[0]) ==> digit_run(s) >= 1,
    decreases s.len(),
{
    if s.len() > 0 && is_digit(s[0]) {
        lemma_digit_run_bound(s.drop_first());
    }
}

/// The number a run of digits spells.
pub open spec fn run_value(s: Seq<char>) -> nat
    decreases s.len(),
{
    if s.len() == 0 {
        0
    } else {
        run_value(s.drop_last()) * 10 + digit_value(s.last())
    }
}

/// What a run of digits reads as: its value when it fits in 128 bits, 0 when
/// it does not.
pub open spec fn read_run(s: Seq<char>) -> nat {
    if run_value(s) < 0x1_0000_0000_0000_0000_0000_0000_0000_0000 {
        run_value(s)
    } else {
        0
    }
}

/// The order of two names: -1 before, 0 level, 1 after. Runs of digits compare
/// by the number they spell, everything else character by character.
pub open spec fn natural_rank(a: Seq<char>, b: Seq<char>) -> int
    decreases a.len() + b.len(),
{
    if a.len() == 0 && b.len() == 0 {
        0
    } else if a.len() == 0 {
        -1
    } else if b.len() == 0 {
        1
    } else if is_digit(a[0]) && is_digit(b[0]) {
        let ra = digit_run(a);
        let rb = digit_run(b);
        proof {
            lemma_digit_run_bound(a);
            lemma_digit_run_bound(b);
        }
        let va = read_run(a.take(ra as int));
        let vb = read_run(b.take(rb as int));
        if va < vb {
            -1
        } else if va > vb {
            1
        } else {
            natural_rank(a.skip(ra as int), b.skip(rb as int))
        }
    } else if (a[0] as u32) < (b[0] as u32) {
        -1
    } else if (a[0] as u32) > (b[0] as u32) {
        1
    } else {
        natural_rank(a.drop_first(), b.drop_first())
    }
}

/// Swapping the two names reverses their order.
pub proof fn lemma_natural_rank_antisymmetric(a: Seq<char>, b: Seq<char>)
    ensures
        natural_rank(a, b) == -natural_rank(b, a),
    decreases a.len() + b.len(),
{
    if a.len() == 0 || b.len() == 0 {
    } else if is_digit(a[0]) && is_digit(b[0]) {
        lemma_digit_run_bound(a);
        lemma_digit_run_bound(b);
        lemma_natural_rank_antisymmetric(a.skip(digit_run(a) as int), b.skip(digit_run(b) as int));
    } else {
        lemma_natural_rank_antisymmetric(a.drop_first(), b.drop_first());
    }
}

/// Every name is level with itself.
pub proof fn lemma_natural_rank_reflexive(a: Seq<char>)
    ensures
        natural_rank(a, a) == 0,
    decreases a.len(),
{
    if a.len() == 0 {
    } else if is_digit(a[0]) {
        lemma_digit_run_bound(a);
        lemma_natural_rank_reflexive(a.skip(digit_run(a) as int));
    } else {
        lemma_natural_rank_reflexive(a.drop_first());
    }
}

/// The order of two names is -1, 0 or 1.
pub proof fn lemma_natural_rank_range(a: Seq<char>, b: Seq<char>)
    ensures
        -1 <= natural_rank(a, b) <= 1,
    decreases a.len() + b.len(),
{
    if a.len() == 0 || b.len() == 0 {
    } else if is_digit(a[0]) && is_digit(b[0]) {
        lemma_digit_run_bound(a);
        lemma_digit_run_bound(b);
        lemma_natural_rank_range(a.skip(digit_run(a) as int), b.skip(digit_run(b) as int));
    } else {
        lemma_natural_rank_range(a.drop_first(), b.drop_first());
    }
}

/// Names are ordered consistently: a name that may come before a second, which
/// may come before a third, may come before the third; and if either step is
/// strict, so is the whole.
pub proof fn lemma_natural_rank_transitive(a: Seq<char>, b: Seq<char>, c: Seq<char>)
    ensures
        natural_rank(a, b) <= 0 && natural_rank(b, c) <= 0 ==> natural_rank(a, c) <= 0,
        natural_rank(a, b) < 0 && natural_rank(b, c) <= 0 ==> natural_rank(a, c) < 0,
        natural_rank(a, b) <= 0 && natural_rank(b, c) < 0 ==> natural_rank(a, c) < 0,
    decreases a.len() + b.len() + c.len(),
{
    if a.len() == 0 || b.len() == 0 || c.len() == 0 {
    } else {
        let da = is_digit(a[0]);
        let db = is_digit(b[0]);
        let dc = is_digit(c[0]);
        if da && db && dc {
            lemma_digit_run_bound(a);
            lemma_digit_run_bound(b);
            lemma_digit_run_bound(c);
            lemma_natural_rank_transitive(
                a.skip(digit_run(a) as int),
                b.skip(digit_run(b) as int),
                c.skip(digit_run(c) as int),
            );
        } else if !da && !db && !dc {
            lemma_natural_rank_transitive(a.drop_first(), b.drop_first(), c.drop_first());
        } else if !db && !dc && (b[0] as u32) == (c[0] as u32) {
            lemma_natural_rank_transitive(a.drop_first(), b.drop_first(), c.drop_first());
        } else if !da && !db && (a[0] as u32) == (b[0] as u32) {
            lemma_natural_rank_transitive(a.drop_first(), b.drop_first(), c.drop_first());
        }
    }
}

proof fn lemma_digit_char_is_digit(d: nat)
    requires
        d < 10,
    ensures
        is_digit(digit_char(d)),
        digit_value(digit_char(d)) == d,
{
}

proof fn lemma_decimal_digits(n: nat)
    ensures
        forall|k: int| 0 <= k < decimal(n).len() ==> is_digit(#[trigger] decimal(n)[k]),
        run_value(decimal(n)) == n,
    decreases n,
{
    lemma_decimal_len(n);
    if n < 10 {
        lemma_digit_char_is_digit(n);
        assert(decimal(n) == seq![digit_char(n)]);
        assert(decimal(n).drop_last() =~= Seq::<char>::empty());
        assert(decimal(n).last() == digit_char(n));
        assert(run_value(Seq::<char>::empty()) == 0);
        assert(run_value(decimal(n)) == run_value(decimal(n).drop_last()) * 10 + digit_value(
            decimal(n).last(),
        ));
    } else {
        lemma_decimal_digits(n / 10);
        lemma_digit_char_is_digit(n % 10);
        assert(decimal(n) == decimal(n / 10).push(digit_char(n % 10)));
        assert(decimal(n).drop_last() =~= decimal(n / 10));
        assert(decimal(n).last() == digit_char(n % 10));
        assert(run_value(decimal(n)) == run_value(decimal(n).drop_last()) * 10 + digit_value(
            decimal(n).last(),
        ));
        assert(n == (n / 10) * 10 + n % 10);
    }
}

/// A run of digits followed by anything but a digit is read whole.
proof fn lemma_digit_run_of(d: Seq<char>, r: Seq<char>)
    requires
        forall|k: int| 0 <= k < d.len() ==> is_digit(#[trigger] d[k]),
        r.len() == 0 || !is_digit(r[0]),
    ensures
        digit_run(d + r) == d.len(),
    decreases d.len(),
{
    if d.len() == 0 {
        assert(d + r =~= r);
    } else {
        assert((d + r).drop_first() =~= d.drop_first() + r);
        lemma_digit_run_of(d.drop_first(), r);
    }
}

/// A prefix that does not end in a digit does not change the order.
proof fn lemma_common_prefix(p: Seq<char>, x: Seq<char>, y: Seq<char>)
    requires
        p.len() == 0 || !is_digit(p.last()),
    ensures
        natural_rank(p + x, p + y) == natural_rank(x, y),
    decreases p.len(),
{
    if p.len() == 0 {
        assert(p + x =~= x);
        assert(p + y =~= y);
    } else if is_digit(p[0]) {
        let k = digit_run(p);
        lemma_digit_run_bound(p);
        lemma_digit_run_prefix(p, x);
        lemma_digit_run_prefix(p, y);
        let q = p.skip(k as int);
        assert((p + x).take(k as int) =~= p.take(k as int));
        assert((p + y).take(k as int) =~= p.take(k as int));
        assert((p + x).skip(k as int) =~= q + x);
        assert((p + y).skip(k as int) =~= q + y);
        assert(q.len() > 0 && q.last() == p.last());
        lemma_common_prefix(q, x, y);
    } else {
        assert((p + x).drop_first() =~= p.drop_first() + x);
        assert((p + y).drop_first() =~= p.drop_first() + y);
        lemma_common_prefix(p.drop_first(), x, y);
    }
}

/// Inside a prefix that does not end in a digit, a run of digits ends
/// before the prefix does.
proof fn lemma_digit_run_prefix(p: Seq<char>, x: Seq<char>)
    requires
        p.len() > 0,
        !is_digit(p.last()),
    ensures
        digit_run(p) < p.len(),
        digit_run(p + x) == digit_run(p),
    decreases p.len(),
{
    if is_digit(p[0]) {
        assert(p.len() > 1);
        assert((p + x).drop_first() =~= p.drop_first() + x);
        lemma_digit_run_prefix(p.drop_first(), x);
    }
}

/// Numbers sort by value, not character by character: two names that share
/// a beginning not ending in a digit and differ in the number that follows
/// it are ordered by that number (within the 128 bits names are read in).
pub proof fn lemma_numbers_sort_by_value(p: Seq<char>, a: nat, b: nat, ra: Seq<char>, rb: Seq<char>)
    requires
        p.len() == 0 || !is_digit(p.last()),
        a < b < 0x1_0000_0000_0000_0000_0000_0000_0000_0000,
        ra.len() == 0 || !is_digit(ra[0]),
        rb.len() == 0 || !is_digit(rb[0]),
    ensures
        natural_rank(p + decimal(a) + ra, p + decimal(b) + rb) == -1,
{
    lemma_decimal_digits(a);
    lemma_decimal_digits(b);
    lemma_decimal_len(a);
    lemma_decimal_len(b);
    let x = decimal(a) + ra;
    let y = decimal(b) + rb;
    assert(p + decimal(a) + ra =~= p + x);
    assert(p + decimal(b) + rb =~= p + y);
    lemma_common_prefix(p, x, y);
    lemma_digit_run_of(decimal(a), ra);
    lemma_digit_run_of(decimal(b), rb);
    assert(x.take(decimal(a).len() as int) =~= decimal(a));
    assert(y.take(decimal(b).len() as int) =~= decimal(b));
    assert(x[0] == decimal(a)[0]);
    assert(y[0] == decimal(b)[0]);
}

fn code(c: char) -> (r: u32)
    ensures
        r == c as u32,
{
    c as u32
}

fn digit_at(v: &[char], i: usize) -> (r: bool)
    requires
        i < v@.len(),
    ensures
        r == is_digit(v@[i as int]),
{
    let u = code(v[i]);
    48 <= u && u <= 57
}

proof fn lemma_digit_run_scan(s: Seq<char>, i: int, j: int)
    requires
        0 <= i <= j <= s.len(),
        forall|k: int| i <= k < j ==> is_digit(s[k]),
        j == s.len() || !is_digit(s[j]),
    ensures
        digit_run(s.skip(i)) == j - i,
    decreases j - i,
{
    if i < j {
        lemma_digit_run_scan(s, i + 1, j);
        assert(s.skip(i).drop_first() =~= s.skip(i + 1));
    } else if j < s.len() {
        assert(s.skip(i)[0] == s[j]);
    }
}

/// The value `read_run` gives the digits `v[lo..hi]`.
fn read_digits(v: &[char], lo: usize, hi: usize) -> (r: u128)
    requires
        lo <= hi <= v@.len(),
        forall|k: int| lo <= k < hi ==> is_digit(v@[k]),
    ensures
        r as nat == read_run(v@.subrange(lo as int, hi as int)),
{
    let ghost s = v@.subrange(lo as int, hi as int);
    let mut acc: u128 = 0;
    let mut over = false;
    let mut i: usize = lo;
    while i < hi
        invariant
            lo <= i <= hi <= v@.len(),
            s == v@.subrange(lo as int, hi as int),
            forall|k: int| lo <= k < hi ==> is_digit(v@[k]),
            !over ==> acc as nat == run_value(s.take(i - lo)),
            over ==> run_value(s.take(i - lo)) >= 0x1_0000_0000_0000_0000_0000_0000_0000_0000,
        decreases hi - i,
    {
        let d = code(v[i]) - 48;
        proof {
            assert(s.take(i + 1 - lo).drop_last() =~= s.take(i - lo));
            assert(s.take(i + 1 - lo).last() == v@[i as int]);
        }
        if !over {
            match acc.checked_mul(10) {
                Some(m) => match m.checked_add(d as u128) {
                    Some(n) => {
                        acc = n;
                    },
                    None => {
                        over = true;
                    },
                },
                None => {
                    over = true;
                },
            }
        }
        i += 1;
    }
    proof {
        assert(s.take(hi - lo) =~= s);
    }
    if over {
        0
    } else {
        acc
    }
}

/// The order of two names as -1, 0 or 1.
pub fn natural_order(a: &str, b: &str) -> (r: i8)
    ensures
        r as int == natural_rank(a@, b@),
        -1 <= r <= 1,
{
    let x = chars_of(a);
    let y = chars_of(b);
    let mut i: usize = 0;
    let mut j: usize = 0;
    assert(x@.skip(0) =~= x@);
    assert(y@.skip(0) =~= y@);
    loop
        invariant
            i <= x@.len(),
            j <= y@.len(),
            x@ == a@,
            y@ == b@,
            natural_rank(x@.skip(i as int), y@.skip(j as int)) == natural_rank(a@, b@),
        decreases x@.len() + y@.len() - i - j,
    {
        let ghost sa = x@.skip(i as int);
        let ghost sb = y@.skip(j as int);
        if i == x.len() && j == y.len() {
            return 0;
        } else if i == x.len() {
            return -1;
        } else if j == y.len() {
            return 1;
        }
        assert(sa[0] == x@[i as int]);
        assert(sb[0] == y@[j as int]);
        if digit_at(x.as_slice(), i) && digit_at(y.as_slice(), j) {
            let mut ei: usize = i;
            while ei < x.len() && digit_at(x.as_slice(), ei)
                invariant
                    i <= ei <= x@.len(),
                    forall|k: int| i <= k < ei ==> is_digit(x@[k]),
                decreases x.len() - ei,
            {
                ei += 1;
            }
            let mut ej: usize = j;
            while ej < y.len() && digit_at(y.as_slice(), ej)
                invariant
                    j <= ej <= y@.len(),
                    forall|k: int| j <= k < ej ==> is_digit(y@[k]),
                decreases y.len() - ej,
            {
                ej += 1;
            }
            let va = read_digits(x.as_slice(), i, ei);
            let vb = read_digits(y.as_slice(), j, ej);
            proof {
                lemma_digit_run_scan(x@, i as int, ei as int);
                lemma_digit_run_scan(y@, j as int, ej as int);
                assert(sa.take(ei - i) =~= x@.subrange(i as int, ei as int));
                assert(sb.take(ej - j) =~= y@.subrange(j as int, ej as int));
                assert(sa.skip(ei - i) =~= x@.skip(ei as int));
                assert(sb.skip(ej - j) =~= y@.skip(ej as int));
            }
            if va < vb {
                return -1;
            } else if va > vb {
                return 1;
            }
            i = ei;
            j = ej;
        } else {
            let ca = code(x[i]);
            let cb = code(y[j]);
            if ca < cb {
                return -1;
            } else if ca > cb {
                return 1;
            }
            proof {
                assert(sa.drop_first() =~= x@.skip(i + 1));
                assert(sb.drop_first() =~= y@.skip(j + 1));
            }
            i += 1;
            j += 1;
        }
    }
}

/// Compares names so that `clip2` lands before `clip10`: runs of digits are
/// compared by value, everything else character by character.
pub fn natural_cmp(a: &str, b: &str) -> (r: std::cmp::Ordering)
    ensures
        (r == std::cmp::Ordering::Less) == (natural_rank(a@, b@) == -1),
        (r == std::cmp::Ordering::Equal) == (natural_rank(a@, b@) == 0),
        (r == std::cmp::Ordering::Greater) == (natural_rank(a@, b@) == 1),
{
    let r = natural_order(a, b);
    if r < 0 {
        std::cmp::Ordering::Less
    } else if r == 0 {
        std::cmp::Ordering::Equal
    } else {
        std::cmp::Ordering::Greater
    }
}

} // verus!
