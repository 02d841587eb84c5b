//! The order of versions.

use vstd::prelude::*;

use crate::text::{find_char, str_eq, to_chars};

verus! {

use crate::text::{
    all_digits, decimal, digits_value, first_at, law_decimal_is_read_back, lemma_first_at_splits,
};

/// A version without its build metadata, which follows a plus sign.
pub open spec fn ranked_part(s: Seq<char>) -> Seq<char> {
    s.take(first_at(s, '+'))
}

/// The numbers of a version: what stands before the first hyphen.
pub open spec fn numbers_part(s: Seq<char>) -> Seq<char> {
    ranked_part(s).take(first_at(ranked_part(s), '-'))
}

/// The identifiers of the pre-release that a version is, if it is one: what
/// follows the first hyphen.
pub open spec fn pre_release(s: Seq<char>) -> Option<Seq<Seq<char>>> {
    let ranked = ranked_part(s);
    if first_at(ranked, '-') < ranked.len() {
        Some(dot_parts(ranked.skip(first_at(ranked, '-') + 1)))
    } else {
        None
    }
}

/// The parts of a text between its dots.
pub open spec fn dot_parts(s: Seq<char>) -> Seq<Seq<char>>
    decreases s.len(),
{
    if s.len() == 0 {
        seq![Seq::empty()]
    } else {
        let parts = dot_parts(s.drop_last());
        if s.last() == '.' {
            parts.push(Seq::empty())
        } else {
            parts.drop_last().push(parts.last().push(s.last()))
        }
    }
}

/// A number: one digit or more.
pub open spec fn is_numeric(s: Seq<char>) -> bool {
    s.len() > 0 && all_digits(s)
}

/// A version: numbers with dots between them, which a hyphen and the identifiers
/// of a pre-release may follow, and then a plus sign and build metadata.
pub open spec fn is_version(s: Seq<char>) -> bool {
    let parts = dot_parts(numbers_part(s));
    forall|i: int| 0 <= i < parts.len() ==> is_numeric(#[trigger] parts[i])
}

/// The number at `i`; a missing one counts as 0.
pub open spec fn number_at(parts: Seq<Seq<char>>, i: int) -> nat {
    if 0 <= i < parts.len() {
        digits_value(parts[i])
    } else {
        0
    }
}

/// The first number that differs is larger in `a`.
pub open spec fn exceeds(a: Seq<Seq<char>>, b: Seq<Seq<char>>) -> bool {
    exists|i: int|
        0 <= i && #[trigger] number_at(a, i) > number_at(b, i) && forall|j: int|
            0 <= j < i ==> #[trigger] number_at(a, j) == number_at(b, j)
}

/// No number differs.
pub open spec fn same_numbers(a: Seq<Seq<char>>, b: Seq<Seq<char>>) -> bool {
    forall|i: int| 0 <= i ==> #[trigger] number_at(a, i) == number_at(b, i)
}

/// The first difference between two texts is at `i`, where `a` has the later
/// character or `b` has ended.
pub open spec fn later_at(a: Seq<char>, b: Seq<char>, i: int) -> bool {
    &&& 0 <= i < a.len()
    &&& i <= b.len()
    &&& i < b.len() ==> a[i] > b[i]
    &&& forall|j: int| 0 <= j < i ==> a[j] == b[j]
}

/// `a` comes after `b` in a dictionary.
pub open spec fn text_above(a: Seq<char>, b: Seq<char>) -> bool {
    exists|i: int| #[trigger] later_at(a, b, i)
}

/// Identifier `a` ranks above `b`: numbers by their value, a text above every
/// number, and texts as in a dictionary.
pub open spec fn id_above(a: Seq<char>, b: Seq<char>) -> bool {
    if is_numeric(a) && is_numeric(b) {
        digits_value(a) > digits_value(b)
    } else if is_numeric(a) || is_numeric(b) {
        is_numeric(b)
    } else {
        text_above(a, b)
    }
}

/// Two identifiers rank the same: equal numbers, or equal texts.
pub open spec fn id_same(a: Seq<char>, b: Seq<char>) -> bool {
    if is_numeric(a) && is_numeric(b) {
        digits_value(a) == digits_value(b)
    } else {
        a == b
    }
}

/// The first difference between two pre-releases is at `i`, where `a` has the
/// identifier that ranks above or `b` has ended.
pub open spec fn ranks_at(a: Seq<Seq<char>>, b: Seq<Seq<char>>, i: int) -> bool {
    &&& 0 <= i < a.len()
    &&& i <= b.len()
    &&& i < b.len() ==> id_above(a[i], b[i])
    &&& forall|j: int| 0 <= j < i ==> id_same(#[trigger] a[j], b[j])
}

/// A pre-release with the identifiers `a` ranks above one with `b`.
pub open spec fn ids_above(a: Seq<Seq<char>>, b: Seq<Seq<char>>) -> bool {
    exists|i: int| #[trigger] ranks_at(a, b, i)
}

/// Of two versions with the same numbers, the release ranks above its
/// pre-releases, and those rank by their identifiers.
pub open spec fn pre_above(a: Option<Seq<Seq<char>>>, b: Option<Seq<Seq<char>>>) -> bool {
    match (a, b) {
        (None, Some(_)) => true,
        (Some(x), Some(y)) => ids_above(x, y),
        _ => false,
    }
}

/// `latest` is newer than `current`: of two versions the one that ranks above, by
/// its numbers and then as a pre-release. Of texts that are no versions nothing
/// is known but whether they differ.
pub open spec fn newer(latest: Seq<char>, current: Seq<char>) -> bool {
    if is_version(latest) && is_version(current) {
        let (a, b) = (dot_parts(numbers_part(latest)), dot_parts(numbers_part(current)));
        exceeds(a, b) || same_numbers(a, b) && pre_above(pre_release(latest), pre_release(current))
    } else {
        latest != current
    }
}

/// The characters of each part.
pub open spec fn part_chars(v: Seq<Vec<char>>) -> Seq<Seq<char>> {
    Seq::new(v.len(), |i: int| v[i]@)
}

/// Takes the text at `from..to` apart at its dots.
fn split_dots(v: &Vec<char>, from: usize, to: usize) -> (r: Vec<Vec<char>>)
    requires
        from <= to <= v@.len(),
    ensures
        part_chars(r@) == dot_parts(v@.subrange(from as int, to as int)),
{
    let mut r: Vec<Vec<char>> = Vec::new();
    let mut part: Vec<char> = Vec::new();
    let mut i: usize = from;
    proof {
        assert(part_chars(r@).push(part@) =~= dot_parts(v@.subrange(from as int, i as int)));
    }
    while i < to
        invariant
            from <= i <= to <= v@.len(),
            part_chars(r@).push(part@) == dot_parts(v@.subrange(from as int, i as int)),
        decreases to - i,
    {
        let ghost done = part_chars(r@);
        let ghost before = part@;
        let ghost parts = dot_parts(v@.subrange(from as int, i as int));
        proof {
            let longer = v@.subrange(from as int, i + 1);
            assert(longer.drop_last() =~= v@.subrange(from as int, i as int));
            assert(longer.last() == v@[i as int]);
            assert(parts.drop_last() =~= done);
            assert(parts.last() == before);
        }
        if v[i] == '.' {
            r.push(part);
            part = Vec::new();
            proof {
                assert(part_chars(r@) =~= done.push(before));
                assert(part@ =~= Seq::<char>::empty());
            }
        } else {
            part.push(v[i]);
        }
        i = i + 1;
    }
    let ghost done = part_chars(r@);
    let ghost before = part@;
    r.push(part);
    proof {
        assert(part_chars(r@) =~= done.push(before));
    }
    r
}

/// A version taken apart. Numbers that are not made of digits show that the text
/// is no version.
struct Parts {
    numbers: Vec<Vec<char>>,
    pre: Option<Vec<Vec<char>>>,
}

/// The identifiers in an optional list.
spec fn pre_chars(pre: Option<Vec<Vec<char>>>) -> Option<Seq<Seq<char>>> {
    match pre {
        Some(ids) => Some(part_chars(ids@)),
        None => None,
    }
}

/// Takes a version apart.
fn take_apart(s: &str) -> (r: Parts)
    ensures
        part_chars(r.numbers@) == dot_parts(numbers_part(s@)),
        pre_chars(r.pre) == pre_release(s@),
{
    let v = to_chars(s);
    let end: usize = find_char(&v, 0, v.len(), '+');
    let dash: usize = find_char(&v, 0, end, '-');
    proof {
        assert(v@.subrange(0, v@.len() as int) =~= s@);
        assert(v@.subrange(0, end as int) =~= ranked_part(s@));
        assert(v@.subrange(0, dash as int) =~= numbers_part(s@));
    }
    let numbers = split_dots(&v, 0, dash);
    let pre = if dash < end {
        assert(v@.subrange(dash + 1, end as int) =~= ranked_part(s@).skip(dash + 1));
        Some(split_dots(&v, dash + 1, end))
    } else {
        None
    };
    Parts { numbers, pre }
}

/// Tells whether every part is a number.
fn all_numbers(parts: &Vec<Vec<char>>) -> (r: bool)
    ensures
        r == (forall|i: int|
            0 <= i < part_chars(parts@).len() ==> is_numeric(#[trigger] part_chars(parts@)[i])),
{
    let mut i: usize = 0;
    while i < parts.len()
        invariant
            i <= parts@.len(),
            forall|k: int| 0 <= k < i ==> is_numeric(#[trigger] part_chars(parts@)[k]),
        decreases parts@.len() - i,
    {
        assert(part_chars(parts@)[i as int] == parts@[i as int]@);
        if !is_number(&parts[i]) {
            return false;
        }
        i = i + 1;
    }
    true
}

/// Tells whether a part is a number.
fn is_number(part: &Vec<char>) -> (r: bool)
    ensures
        r == is_numeric(part@),
{
    if part.len() == 0 {
        return false;
    }
    let mut j: usize = 0;
    while j < part.len()
        invariant
            j <= part@.len(),
            forall|k: int| 0 <= k < j ==> '0' <= #[trigger] part@[k] <= '9',
        decreases part@.len() - j,
    {
        if !('0' <= part[j] && part[j] <= '9') {
            return false;
        }
        j = j + 1;
    }
    true
}

/// How two numbers stand to each other.
#[derive(Debug, Clone, Copy, PartialEq, Eq, Structural)]
enum Side {
    Below,
    Same,
    Above,
}

/// `a` and `b` stand to each other as `side` says.
spec fn stands(side: Side, a: nat, b: nat) -> bool {
    match side {
        Side::Below => a < b,
        Side::Same => a == b,
        Side::Above => a > b,
    }
}

/// The number that the first `n` of `total` digits stand for, where zeros fill
/// the digits up from the left.
spec fn padded_value(s: Seq<char>, total: int, n: int) -> nat {
    if n <= total - s.len() {
        0
    } else {
        digits_value(s.take(n - (total - s.len())))
    }
}

/// One more digit.
proof fn lemma_padded_step(s: Seq<char>, total: int, n: int)
    requires
        all_digits(s),
        s.len() <= total,
        0 <= n < total,
    ensures
        padded_value(s, total, n + 1) == padded_value(s, total, n) * 10 + (if n < total - s.len() {
            0
        } else {
            s[n - (total - s.len())] as int - '0' as int
        }),
        n >= total - s.len() ==> 0 <= s[n - (total - s.len())] as int - '0' as int <= 9,
{
    let pad = total - s.len();
    if n >= pad {
        let longer = s.take(n + 1 - pad);
        assert(longer.drop_last() =~= s.take(n - pad));
        assert(longer.last() == s[n - pad]);
        assert('0' <= s[n - pad] <= '9');
        let c = s[n - pad];
        assert(c as nat - '0' as nat == c as int - '0' as int);
        assert(digits_value(longer) == digits_value(s.take(n - pad)) * 10 + (c as int
            - '0' as int));
        if n == pad {
            assert(s.take(n - pad).len() == 0);
            assert(digits_value(s.take(n - pad)) == 0);
        }
        assert(padded_value(s, total, n) == digits_value(s.take(n - pad)));
    }
}

/// Tells how the numbers that two texts of digits stand for stand to each other.
fn weigh(a: &Vec<char>, b: &Vec<char>) -> (r: Side)
    requires
        all_digits(a@),
        all_digits(b@),
    ensures
        stands(r, digits_value(a@), digits_value(b@)),
{
    let (la, lb): (usize, usize) = (a.len(), b.len());
    let total: usize = if la < lb {
        lb
    } else {
        la
    };
    let mut side = Side::Same;
    let mut n: usize = 0;
    while n < total
        invariant
            la == a@.len(),
            lb == b@.len(),
            la <= total,
            lb <= total,
            n <= total,
            all_digits(a@),
            all_digits(b@),
            stands(
                side,
                padded_value(a@, total as int, n as int),
                padded_value(b@, total as int, n as int),
            ),
        decreases total - n,
    {
        proof {
            lemma_padded_step(a@, total as int, n as int);
            lemma_padded_step(b@, total as int, n as int);
        }
        let da = if n < total - la {
            '0'
        } else {
            a[n - (total - la)]
        };
        let db = if n < total - lb {
            '0'
        } else {
            b[n - (total - lb)]
        };
        if side == Side::Same {
            if da < db {
                side = Side::Below;
            } else if da > db {
                side = Side::Above;
            }
        }
        n = n + 1;
    }
    assert(a@.take(a@.len() as int) =~= a@);
    assert(b@.take(b@.len() as int) =~= b@);
    side
}

/// Exactly one of two things stands above the other, or neither does.
spec fn sided(side: Side, up: bool, down: bool) -> bool {
    match side {
        Side::Below => !up && down,
        Side::Same => !up && !down,
        Side::Above => up && !down,
    }
}

/// Tells which of two lists of numbers is larger.
fn weigh_numbers(a: &Vec<Vec<char>>, b: &Vec<Vec<char>>) -> (r: Side)
    requires
        forall|i: int| 0 <= i < a@.len() ==> is_numeric(#[trigger] part_chars(a@)[i]),
        forall|i: int| 0 <= i < b@.len() ==> is_numeric(#[trigger] part_chars(b@)[i]),
    ensures
        sided(
            r,
            exceeds(part_chars(a@), part_chars(b@)),
            exceeds(part_chars(b@), part_chars(a@)),
        ),
        r == Side::Same <==> same_numbers(part_chars(a@), part_chars(b@)),
{
    let zero: Vec<char> = Vec::new();
    let (la, lb): (usize, usize) = (a.len(), b.len());
    let ghost pa = part_chars(a@);
    let ghost pb = part_chars(b@);
    let mut i: usize = 0;
    while i < la || i < lb
        invariant
            la == a@.len(),
            lb == b@.len(),
            part_chars(a@) == pa,
            part_chars(b@) == pb,
            forall|k: int| 0 <= k < a@.len() ==> is_numeric(#[trigger] pa[k]),
            forall|k: int| 0 <= k < b@.len() ==> is_numeric(#[trigger] pb[k]),
            zero@.len() == 0,
            i <= la || i <= lb,
            forall|j: int| 0 <= j < i ==> #[trigger] number_at(pa, j) == number_at(pb, j),
        decreases la + lb - i,
    {
        let x = if i < la {
            &a[i]
        } else {
            &zero
        };
        let y = if i < lb {
            &b[i]
        } else {
            &zero
        };
        proof {
            if i < la {
                assert(pa[i as int] == a@[i as int]@);
            }
            if i < lb {
                assert(pb[i as int] == b@[i as int]@);
            }
            assert(digits_value(x@) == number_at(pa, i as int));
            assert(digits_value(y@) == number_at(pb, i as int));
            assert forall|j: int| 0 <= j < i implies #[trigger] number_at(pb, j) == number_at(
                pa,
                j,
            ) by {
                assert(number_at(pa, j) == number_at(pb, j));
            }
        }
        match weigh(x, y) {
            Side::Above => {
                proof {
                    lemma_larger_number(pb, pa, i as int);
                }
                return Side::Above;
            },
            Side::Below => {
                proof {
                    lemma_larger_number(pa, pb, i as int);
                }
                return Side::Below;
            },
            Side::Same => {},
        }
        i = i + 1;
    }
    proof {
        assert forall|j: int| 0 <= j implies #[trigger] number_at(pa, j) == number_at(pb, j) by {}
        lemma_same_numbers(pa, pb);
    }
    Side::Same
}

/// Tells which of two texts comes later in a dictionary.
fn weigh_texts(a: &Vec<char>, b: &Vec<char>) -> (r: Side)
    ensures
        sided(r, text_above(a@, b@), text_above(b@, a@)),
        r == Side::Same <==> a@ == b@,
{
    let (la, lb): (usize, usize) = (a.len(), b.len());
    let mut i: usize = 0;
    while i < la && i < lb
        invariant
            la == a@.len(),
            lb == b@.len(),
            i <= la,
            i <= lb,
            forall|j: int| 0 <= j < i ==> a@[j] == b@[j],
        decreases la - i,
    {
        if a[i] > b[i] {
            proof {
                assert(later_at(a@, b@, i as int));
                lemma_text_one_way(a@, b@);
            }
            return Side::Above;
        }
        if a[i] < b[i] {
            proof {
                assert(later_at(b@, a@, i as int));
                lemma_text_one_way(b@, a@);
            }
            return Side::Below;
        }
        i = i + 1;
    }
    if i < la {
        proof {
            assert(later_at(a@, b@, i as int));
            lemma_text_one_way(a@, b@);
        }
        Side::Above
    } else if i < lb {
        proof {
            assert(later_at(b@, a@, i as int));
            lemma_text_one_way(b@, a@);
        }
        Side::Below
    } else {
        assert(a@ =~= b@);
        Side::Same
    }
}

/// Tells which of two identifiers ranks above the other.
fn weigh_ids(a: &Vec<char>, b: &Vec<char>) -> (r: Side)
    ensures
        sided(r, id_above(a@, b@), id_above(b@, a@)),
        r == Side::Same <==> id_same(a@, b@),
{
    match (is_number(a), is_number(b)) {
        (true, true) => weigh(a, b),
        (true, false) => Side::Below,
        (false, true) => Side::Above,
        (false, false) => weigh_texts(a, b),
    }
}

/// Tells which of two pre-releases ranks above the other.
fn weigh_pre_releases(a: &Vec<Vec<char>>, b: &Vec<Vec<char>>) -> (r: Side)
    ensures
        sided(
            r,
            ids_above(part_chars(a@), part_chars(b@)),
            ids_above(part_chars(b@), part_chars(a@)),
        ),
{
    let (la, lb): (usize, usize) = (a.len(), b.len());
    let ghost pa = part_chars(a@);
    let ghost pb = part_chars(b@);
    let mut i: usize = 0;
    while i < la && i < lb
        invariant
            la == a@.len(),
            lb == b@.len(),
            pa == part_chars(a@),
            pb == part_chars(b@),
            i <= la,
            i <= lb,
            forall|j: int| 0 <= j < i ==> id_same(#[trigger] pa[j], pb[j]),
            forall|j: int| 0 <= j < i ==> id_same(#[trigger] pb[j], pa[j]),
        decreases la - i,
    {
        assert(pa[i as int] == a@[i as int]@);
        assert(pb[i as int] == b@[i as int]@);
        match weigh_ids(&a[i], &b[i]) {
            Side::Above => {
                proof {
                    assert(ranks_at(pa, pb, i as int));
                    lemma_ids_one_way(pa, pb);
                }
                return Side::Above;
            },
            Side::Below => {
                proof {
                    assert(ranks_at(pb, pa, i as int));
                    lemma_ids_one_way(pb, pa);
                }
                return Side::Below;
            },
            Side::Same => {},
        }
        i = i + 1;
    }
    if i < la {
        proof {
            assert(ranks_at(pa, pb, i as int));
            lemma_ids_one_way(pa, pb);
        }
        Side::Above
    } else if i < lb {
        proof {
            assert(ranks_at(pb, pa, i as int));
            lemma_ids_one_way(pb, pa);
        }
        Side::Below
    } else {
        proof {
            lemma_same_ids(pa, pb);
        }
        Side::Same
    }
}

/// Tells whether `latest` is newer than `current`.
pub fn is_newer(latest: &str, current: &str) -> (r: bool)
    ensures
        r == newer(latest@, current@),
{
    let a = take_apart(latest);
    let b = take_apart(current);
    if !all_numbers(&a.numbers) || !all_numbers(&b.numbers) {
        return !str_eq(latest, current);
    }
    match weigh_numbers(&a.numbers, &b.numbers) {
        Side::Above => true,
        Side::Below => {
            proof {
                lemma_exceeding_differs(part_chars(b.numbers@), part_chars(a.numbers@));
            }
            false
        },
        Side::Same => match (&a.pre, &b.pre) {
            (None, Some(_)) => true,
            (Some(x), Some(y)) => match weigh_pre_releases(x, y) {
                Side::Above => true,
                _ => false,
            },
            _ => false,
        },
    }
}

/// Where the first number that differs is larger in `b`, `b` exceeds `a` and `a`
/// does not exceed `b`.
proof fn lemma_larger_number(a: Seq<Seq<char>>, b: Seq<Seq<char>>, i: int)
    requires
        0 <= i,
        number_at(a, i) < number_at(b, i),
        forall|j: int| 0 <= j < i ==> #[trigger] number_at(a, j) == number_at(b, j),
    ensures
        exceeds(b, a),
        !exceeds(a, b),
        !same_numbers(a, b),
        !same_numbers(b, a),
{
    assert forall|j: int| 0 <= j < i implies #[trigger] number_at(b, j) == number_at(a, j) by {
        assert(number_at(a, j) == number_at(b, j));
    }
    assert(number_at(b, i) > number_at(a, i));
    if exceeds(a, b) {
        let w = choose|w: int|
            0 <= w && #[trigger] number_at(a, w) > number_at(b, w) && forall|j: int|
                0 <= j < w ==> #[trigger] number_at(a, j) == number_at(b, j);
        if w < i {
            assert(number_at(a, w) == number_at(b, w));
        } else {
            assert(i < w ==> number_at(a, i) == number_at(b, i));
        }
    }
}

/// Where one list of numbers exceeds another, the other does not exceed it.
proof fn lemma_exceeding_differs(a: Seq<Seq<char>>, b: Seq<Seq<char>>)
    requires
        exceeds(a, b),
    ensures
        !exceeds(b, a),
        !same_numbers(a, b),
        !same_numbers(b, a),
{
    let w = choose|w: int|
        0 <= w && #[trigger] number_at(a, w) > number_at(b, w) && forall|j: int|
            0 <= j < w ==> #[trigger] number_at(a, j) == number_at(b, j);
    assert forall|j: int| 0 <= j < w implies #[trigger] number_at(b, j) == number_at(a, j) by {
        assert(number_at(a, j) == number_at(b, j));
    }
    lemma_larger_number(b, a, w);
}

/// Of two lists with the same numbers none exceeds the other.
proof fn lemma_same_numbers(a: Seq<Seq<char>>, b: Seq<Seq<char>>)
    requires
        same_numbers(a, b),
    ensures
        same_numbers(b, a),
        !exceeds(a, b),
        !exceeds(b, a),
{
    assert forall|i: int| 0 <= i implies #[trigger] number_at(b, i) == number_at(a, i) by {
        assert(number_at(a, i) == number_at(b, i));
    }
}

/// Of two texts at most one comes after the other.
proof fn lemma_text_one_way(a: Seq<char>, b: Seq<char>)
    requires
        text_above(a, b),
    ensures
        !text_above(b, a),
        a != b,
{
    let i = choose|i: int| #[trigger] later_at(a, b, i);
    if text_above(b, a) {
        let k = choose|k: int| #[trigger] later_at(b, a, k);
        if k < i {
            assert(a[k] == b[k]);
        } else if i < k {
            assert(b[i] == a[i]);
        }
    }
}

/// Of two identifiers at most one ranks above the other, and then they do not
/// rank the same.
proof fn lemma_id_one_way(a: Seq<char>, b: Seq<char>)
    requires
        id_above(a, b),
    ensures
        !id_above(b, a),
        !id_same(a, b),
        !id_same(b, a),
{
    if !is_numeric(a) && !is_numeric(b) {
        lemma_text_one_way(a, b);
    }
}

/// Of two pre-releases at most one ranks above the other.
proof fn lemma_ids_one_way(a: Seq<Seq<char>>, b: Seq<Seq<char>>)
    requires
        ids_above(a, b),
    ensures
        !ids_above(b, a),
{
    let i = choose|i: int| #[trigger] ranks_at(a, b, i);
    if ids_above(b, a) {
        let k = choose|k: int| #[trigger] ranks_at(b, a, k);
        if k < i {
            assert(id_same(a[k], b[k]));
            lemma_id_one_way(b[k], a[k]);
        } else if i < k {
            assert(id_same(b[i], a[i]));
            lemma_id_one_way(a[i], b[i]);
        } else {
            lemma_id_one_way(a[i], b[i]);
        }
    }
}

/// Of two pre-releases whose identifiers rank the same none ranks above the
/// other.
proof fn lemma_same_ids(a: Seq<Seq<char>>, b: Seq<Seq<char>>)
    requires
        a.len() == b.len(),
        forall|j: int| 0 <= j < a.len() ==> id_same(#[trigger] a[j], b[j]),
    ensures
        !ids_above(a, b),
        !ids_above(b, a),
{
    if ids_above(a, b) {
        let i = choose|i: int| #[trigger] ranks_at(a, b, i);
        lemma_id_one_way(a[i], b[i]);
    }
    if ids_above(b, a) {
        let i = choose|i: int| #[trigger] ranks_at(b, a, i);
        assert(id_same(a[i], b[i]));
        lemma_id_one_way(b[i], a[i]);
    }
}

/// Of two versions at most one is newer than the other, and none is newer than
/// itself.
pub proof fn law_newer_has_a_direction(a: Seq<char>, b: Seq<char>)
    requires
        is_version(a),
        is_version(b),
        newer(a, b),
    ensures
        !newer(b, a),
        a != b,
{
    let (pa, pb) = (dot_parts(numbers_part(a)), dot_parts(numbers_part(b)));
    if exceeds(pa, pb) {
        lemma_exceeding_differs(pa, pb);
    } else {
        lemma_same_numbers(pa, pb);
        match (pre_release(a), pre_release(b)) {
            (Some(x), Some(y)) => {
                lemma_ids_one_way(x, y);
            },
            _ => {},
        }
    }
}

/// No text is newer than itself.
pub proof fn law_nothing_is_newer_than_itself(s: Seq<char>)
    ensures
        !newer(s, s),
{
    if is_version(s) && newer(s, s) {
        law_newer_has_a_direction(s, s);
    }
}

/// Exceeding goes on: what exceeds something that exceeds, or equals, `c` exceeds
/// `c`.
proof fn lemma_exceeding_goes_on(a: Seq<Seq<char>>, b: Seq<Seq<char>>, c: Seq<Seq<char>>)
    ensures
        exceeds(a, b) && exceeds(b, c) ==> exceeds(a, c),
        exceeds(a, b) && same_numbers(b, c) ==> exceeds(a, c),
        same_numbers(a, b) && exceeds(b, c) ==> exceeds(a, c),
        same_numbers(a, b) && same_numbers(b, c) ==> same_numbers(a, c),
{
    if exceeds(a, b) && (exceeds(b, c) || same_numbers(b, c)) {
        let i = choose|i: int|
            0 <= i && #[trigger] number_at(a, i) > number_at(b, i) && forall|j: int|
                0 <= j < i ==> #[trigger] number_at(a, j) == number_at(b, j);
        if same_numbers(b, c) {
            assert(number_at(b, i) == number_at(c, i));
            assert forall|j: int| 0 <= j < i implies #[trigger] number_at(a, j) == number_at(
                c,
                j,
            ) by {
                assert(number_at(b, j) == number_at(c, j));
            }
            assert(number_at(a, i) > number_at(c, i));
        } else {
            let k = choose|k: int|
                0 <= k && #[trigger] number_at(b, k) > number_at(c, k) && forall|j: int|
                    0 <= j < k ==> #[trigger] number_at(b, j) == number_at(c, j);
            let m = if i < k {
                i
            } else {
                k
            };
            assert(k < i ==> number_at(a, k) == number_at(b, k));
            assert(i < k ==> number_at(b, i) == number_at(c, i));
            assert forall|j: int| 0 <= j < m implies #[trigger] number_at(a, j) == number_at(
                c,
                j,
            ) by {
                assert(number_at(b, j) == number_at(c, j));
            }
            assert(number_at(a, m) > number_at(c, m));
        }
    }
    if same_numbers(a, b) && exceeds(b, c) {
        let k = choose|k: int|
            0 <= k && #[trigger] number_at(b, k) > number_at(c, k) && forall|j: int|
                0 <= j < k ==> #[trigger] number_at(b, j) == number_at(c, j);
        assert(number_at(a, k) == number_at(b, k));
        assert forall|j: int| 0 <= j < k implies #[trigger] number_at(a, j) == number_at(
            c,
            j,
        ) by {
            assert(number_at(b, j) == number_at(c, j));
        }
        assert(number_at(a, k) > number_at(c, k));
    }
    if same_numbers(a, b) && same_numbers(b, c) {
        assert forall|j: int| 0 <= j implies #[trigger] number_at(a, j) == number_at(c, j) by {
            assert(number_at(b, j) == number_at(c, j));
        }
    }
}

/// The order of a dictionary goes on.
proof fn lemma_text_goes_on(a: Seq<char>, b: Seq<char>, c: Seq<char>)
    requires
        text_above(a, b),
        text_above(b, c),
    ensures
        text_above(a, c),
{
    let i = choose|i: int| #[trigger] later_at(a, b, i);
    let k = choose|k: int| #[trigger] later_at(b, c, k);
    let m = if i < k {
        i
    } else {
        k
    };
    assert(k < i ==> a[k] == b[k]);
    assert(i < k ==> b[i] == c[i]);
    assert forall|j: int| 0 <= j < m implies a[j] == c[j] by {
        assert(a[j] == b[j]);
    }
    assert(later_at(a, c, m));
}

/// The rank of identifiers goes on.
proof fn lemma_id_goes_on(a: Seq<char>, b: Seq<char>, c: Seq<char>)
    ensures
        id_above(a, b) && id_above(b, c) ==> id_above(a, c),
        id_above(a, b) && id_same(b, c) ==> id_above(a, c),
        id_same(a, b) && id_above(b, c) ==> id_above(a, c),
        id_same(a, b) && id_same(b, c) ==> id_same(a, c),
{
    if id_above(a, b) && id_above(b, c) && !is_numeric(a) && !is_numeric(b) && !is_numeric(c) {
        lemma_text_goes_on(a, b, c);
    }
}

/// The rank of pre-releases goes on.
proof fn lemma_ids_go_on(a: Seq<Seq<char>>, b: Seq<Seq<char>>, c: Seq<Seq<char>>)
    requires
        ids_above(a, b),
        ids_above(b, c),
    ensures
        ids_above(a, c),
{
    let i = choose|i: int| #[trigger] ranks_at(a, b, i);
    let k = choose|k: int| #[trigger] ranks_at(b, c, k);
    let m = if i < k {
        i
    } else {
        k
    };
    assert(k < i ==> id_same(a[k], b[k]));
    assert(i < k ==> id_same(b[i], c[i]));
    if m < c.len() {
        lemma_id_goes_on(a[m], b[m], c[m]);
    }
    assert forall|j: int| 0 <= j < m implies id_same(#[trigger] a[j], c[j]) by {
        assert(id_same(b[j], c[j]));
        lemma_id_goes_on(a[j], b[j], c[j]);
    }
    assert(ranks_at(a, c, m));
}

/// Of three versions, one that is newer than a second, which is newer than a
/// third, is newer than the third.
pub proof fn law_newer_goes_on(a: Seq<char>, b: Seq<char>, c: Seq<char>)
    requires
        is_version(a),
        is_version(b),
        is_version(c),
        newer(a, b),
        newer(b, c),
    ensures
        newer(a, c),
{
    let (pa, pb, pc) = (
        dot_parts(numbers_part(a)),
        dot_parts(numbers_part(b)),
        dot_parts(numbers_part(c)),
    );
    lemma_exceeding_goes_on(pa, pb, pc);
    match (pre_release(a), pre_release(b), pre_release(c)) {
        (Some(x), Some(y), Some(z)) => {
            if ids_above(x, y) && ids_above(y, z) {
                lemma_ids_go_on(x, y, z);
            }
        },
        _ => {},
    }
}

/// The parts of a text with a dot in it are the parts before and behind the dot.
proof fn lemma_parts_around_a_dot(a: Seq<char>, b: Seq<char>)
    ensures
        dot_parts(a + seq!['.'] + b) == dot_parts(a) + dot_parts(b),
        dot_parts(b).len() > 0,
    decreases b.len(),
{
    let s = a + seq!['.'] + b;
    if b.len() == 0 {
        assert(s.drop_last() =~= a);
        assert(dot_parts(s) =~= dot_parts(a) + dot_parts(b));
    } else {
        lemma_parts_around_a_dot(a, b.drop_last());
        assert(s.drop_last() =~= a + seq!['.'] + b.drop_last());
        assert(s.last() == b.last());
        let rest = dot_parts(b.drop_last());
        if b.last() == '.' {
            assert(dot_parts(s) =~= dot_parts(a) + dot_parts(b));
        } else {
            assert((dot_parts(a) + rest).last() == rest.last());
            assert((dot_parts(a) + rest).drop_last() =~= dot_parts(a) + rest.drop_last());
            assert(dot_parts(s) =~= dot_parts(a) + dot_parts(b));
        }
    }
}

/// A text without a dot has one part.
proof fn lemma_one_part(s: Seq<char>)
    requires
        forall|i: int| 0 <= i < s.len() ==> s[i] != '.',
    ensures
        dot_parts(s) == seq![s],
    decreases s.len(),
{
    if s.len() > 0 {
        lemma_one_part(s.drop_last());
        let parts = dot_parts(s.drop_last());
        assert(parts.drop_last() =~= Seq::<Seq<char>>::empty());
        assert(parts.last().push(s.last()) =~= s);
    } else {
        assert(s =~= Seq::<char>::empty());
    }
    assert(dot_parts(s) =~= seq![s]);
}

/// Three numerals with dots between them.
pub open spec fn triple(a: nat, b: nat, c: nat) -> Seq<char> {
    decimal(a) + seq!['.'] + decimal(b) + seq!['.'] + decimal(c)
}

/// Nothing, or something that a hyphen or a plus sign sets off.
pub open spec fn is_tail(t: Seq<char>) -> bool {
    t.len() > 0 ==> t[0] == '-' || t[0] == '+'
}

/// What a version of three numbers is made of.
proof fn lemma_triple(a: nat, b: nat, c: nat, tail: Seq<char>)
    requires
        is_tail(tail),
    ensures
        numbers_part(triple(a, b, c) + tail) == triple(a, b, c),
        is_version(triple(a, b, c) + tail),
        ({
            let parts = dot_parts(triple(a, b, c));
            &&& number_at(parts, 0) == a
            &&& number_at(parts, 1) == b
            &&& number_at(parts, 2) == c
            &&& forall|i: int| i > 2 ==> #[trigger] number_at(parts, i) == 0
        }),
        forall|i: int|
            0 <= i < triple(a, b, c).len() ==> triple(a, b, c)[i] != '-' && triple(a, b, c)[i]
                != '+',
{
    law_decimal_is_read_back(a);
    law_decimal_is_read_back(b);
    law_decimal_is_read_back(c);
    let (x, y, z) = (decimal(a), decimal(b), decimal(c));
    let t = triple(a, b, c);
    lemma_one_part(x);
    lemma_one_part(y);
    lemma_one_part(z);
    lemma_parts_around_a_dot(x, y);
    lemma_parts_around_a_dot(x + seq!['.'] + y, z);
    let parts = dot_parts(t);
    assert(parts =~= seq![x, y, z]);
    assert forall|i: int| 0 <= i < t.len() implies t[i] != '-' && t[i] != '+' by {
        let (m, n) = (x.len() as int, y.len() as int);
        if i < m {
            assert(t[i] == x[i]);
        } else if m < i < m + 1 + n {
            assert(t[i] == y[i - m - 1]);
        } else if i > m + 1 + n {
            assert(t[i] == z[i - m - 1 - n - 1]);
        }
    }
    lemma_cut(t, tail);
    assert forall|i: int| 0 <= i < parts.len() implies is_numeric(#[trigger] parts[i]) by {}
}

/// The numbers end where the tail starts.
proof fn lemma_cut(t: Seq<char>, tail: Seq<char>)
    requires
        is_tail(tail),
        forall|i: int| 0 <= i < t.len() ==> t[i] != '-' && t[i] != '+',
    ensures
        numbers_part(t + tail) == t,
{
    let s = t + tail;
    lemma_first_at_splits(s, '+');
    let ranked = ranked_part(s);
    let plus = first_at(s, '+');
    if plus < t.len() {
        assert(s[plus] == t[plus]);
    }
    if tail.len() > 0 && tail[0] == '+' {
        assert(s[t.len() as int] == '+');
    }
    lemma_first_at_splits(ranked, '-');
    let dash = first_at(ranked, '-');
    if dash < t.len() {
        assert(ranked[dash] == t[dash]);
    }
    if tail.len() > 0 && tail[0] == '-' {
        assert(s[t.len() as int] == '-');
        assert(plus > t.len());
        assert(ranked[t.len() as int] == '-');
    }
    assert(numbers_part(s) =~= t);
}

/// Versions rank by their numbers, the first before the second before the third,
/// each by its value, whatever follows them.
pub proof fn law_versions_rank_by_their_numbers(
    new: (nat, nat, nat),
    old_one: (nat, nat, nat),
    t1: Seq<char>,
    t2: Seq<char>,
    latest: &str,
    current: &str,
    r: bool,
)
    requires
        is_tail(t1),
        is_tail(t2),
        latest@ == triple(new.0, new.1, new.2) + t1,
        current@ == triple(old_one.0, old_one.1, old_one.2) + t2,
        call_ensures(is_newer, (latest, current), r),
    ensures
        new.0 > old_one.0 ==> r,
        new.0 < old_one.0 ==> !r,
        new.0 == old_one.0 && new.1 > old_one.1 ==> r,
        new.0 == old_one.0 && new.1 < old_one.1 ==> !r,
        new.0 == old_one.0 && new.1 == old_one.1 && new.2 > old_one.2 ==> r,
        new.0 == old_one.0 && new.1 == old_one.1 && new.2 < old_one.2 ==> !r,
        new == old_one && t1.len() == 0 && t2.len() == 0 ==> !r,
{
    lemma_triple(new.0, new.1, new.2, t1);
    lemma_triple(old_one.0, old_one.1, old_one.2, t2);
    let pa = dot_parts(triple(new.0, new.1, new.2));
    let pb = dot_parts(triple(old_one.0, old_one.1, old_one.2));
    let i: int = if new.0 != old_one.0 {
        0
    } else if new.1 != old_one.1 {
        1
    } else {
        2
    };
    assert forall|j: int| 0 <= j < i implies #[trigger] number_at(pa, j) == number_at(pb, j) by {
        assert(j == 0 || j == 1);
    }
    assert forall|j: int| 0 <= j < i implies #[trigger] number_at(pb, j) == number_at(pa, j) by {
        assert(j == 0 || j == 1);
    }
    if number_at(pa, i) > number_at(pb, i) {
        lemma_larger_number(pb, pa, i);
    } else if number_at(pa, i) < number_at(pb, i) {
        lemma_larger_number(pa, pb, i);
    } else if t1.len() == 0 && t2.len() == 0 {
        assert(latest@ == current@);
        law_nothing_is_newer_than_itself(latest@);
    }
}

/// What follows the numbers of a version: its pre-release.
proof fn lemma_pre_release(t: Seq<char>, pre: Option<Seq<char>>, build: Seq<char>)
    requires
        forall|i: int| 0 <= i < t.len() ==> t[i] != '-' && t[i] != '+',
        pre matches Some(p) ==> forall|i: int| 0 <= i < p.len() ==> p[i] != '+',
        build.len() > 0 ==> build[0] == '+',
    ensures
        pre_release(suffixed(t, pre, build)) == match pre {
            Some(p) => Some(dot_parts(p)),
            None => None,
        },
{
    let s = suffixed(t, pre, build);
    let shown = suffixed(t, pre, Seq::empty());
    assert forall|i: int| 0 <= i < shown.len() implies shown[i] != '+' by {
        if i < t.len() {
            assert(shown[i] == t[i]);
        } else if i > t.len() {
            assert(shown[i] == pre->Some_0[i - t.len() - 1]);
        }
    }
    lemma_first_at_splits(s, '+');
    let plus = first_at(s, '+');
    if plus < shown.len() {
        assert(s[plus] == shown[plus]);
    }
    if build.len() > 0 {
        assert(s[shown.len() as int] == '+');
    }
    assert(ranked_part(s) =~= shown);
    lemma_first_at_splits(shown, '-');
    let dash = first_at(shown, '-');
    if dash < t.len() {
        assert(shown[dash] == t[dash]);
    }
    match pre {
        Some(p) => {
            assert(shown[t.len() as int] == '-');
            assert(shown.skip(dash + 1) =~= p);
        },
        None => {},
    }
}

/// Numbers, a pre-release if there is one, and build metadata.
pub open spec fn suffixed(t: Seq<char>, pre: Option<Seq<char>>, build: Seq<char>) -> Seq<char> {
    match pre {
        Some(p) => t + (seq!['-'] + p + build),
        None => t + build,
    }
}

/// At the same numbers a release is newer than its pre-releases and never the other
/// way round, and build metadata does not count.
pub proof fn law_releases_rank_above_pre_releases(
    n: (nat, nat, nat),
    pre: Seq<char>,
    b1: Seq<char>,
    b2: Seq<char>,
    release: &str,
    other: &str,
    candidate: &str,
    r: (bool, bool, bool),
)
    requires
        forall|i: int| 0 <= i < pre.len() ==> pre[i] != '+',
        b1.len() > 0 ==> b1[0] == '+',
        b2.len() > 0 ==> b2[0] == '+',
        release@ == suffixed(triple(n.0, n.1, n.2), None, b1),
        other@ == suffixed(triple(n.0, n.1, n.2), None, b2),
        candidate@ == suffixed(triple(n.0, n.1, n.2), Some(pre), b2),
        call_ensures(is_newer, (release, candidate), r.0),
        call_ensures(is_newer, (candidate, release), r.1),
        call_ensures(is_newer, (release, other), r.2),
    ensures
        r.0,
        !r.1,
        !r.2,
{
    let t = triple(n.0, n.1, n.2);
    lemma_triple(n.0, n.1, n.2, b1);
    lemma_triple(n.0, n.1, n.2, b2);
    lemma_triple(n.0, n.1, n.2, seq!['-'] + pre + b2);
    lemma_pre_release(t, None, b1);
    lemma_pre_release(t, None, b2);
    lemma_pre_release(t, Some(pre), b2);
    let parts = dot_parts(t);
    assert(same_numbers(parts, parts));
    lemma_same_numbers(parts, parts);
}

/// Nothing, or something that a dot sets off.
pub open spec fn is_more(m: Seq<char>) -> bool {
    &&& m.len() > 0 ==> m[0] == '.'
    &&& forall|i: int| 0 <= i < m.len() ==> m[i] != '+'
}

/// An identifier of a pre-release.
pub open spec fn is_id(x: Seq<char>) -> bool {
    forall|i: int| 0 <= i < x.len() ==> x[i] != '.' && x[i] != '+'
}

/// The parts of an identifier with more behind it start with the identifier.
proof fn lemma_first_part(x: Seq<char>, m: Seq<char>)
    requires
        is_id(x),
        is_more(m),
    ensures
        dot_parts(x + m).len() > 0,
        dot_parts(x + m)[0] == x,
{
    lemma_one_part(x);
    if m.len() == 0 {
        assert(x + m =~= x);
    } else {
        assert(x + m =~= x + seq!['.'] + m.drop_first());
        lemma_parts_around_a_dot(x, m.drop_first());
    }
}

/// Pre-releases of the same numbers rank by the first identifier that differs, and
/// what follows it does not matter: numbers by their value, a text above a number,
/// and texts by the first character that differs. One with more identifiers ranks
/// above one that ends there.
pub proof fn law_pre_releases_rank_by_their_identifiers(
    n: (nat, nat, nat),
    shared: Seq<char>,
    x: Seq<char>,
    y: Seq<char>,
    more: (Seq<char>, Seq<char>),
    high: &str,
    low: &str,
    short: &str,
    r: (bool, bool, bool),
    i: nat,
    j: nat,
    k: int,
)
    requires
        forall|m: int| 0 <= m < shared.len() ==> shared[m] != '+',
        is_id(x) && is_id(y) && is_more(more.0) && is_more(more.1),
        high@ == triple(n.0, n.1, n.2) + (seq!['-'] + (shared + seq!['.'] + (x + more.0))),
        low@ == triple(n.0, n.1, n.2) + (seq!['-'] + (shared + seq!['.'] + (y + more.1))),
        short@ == triple(n.0, n.1, n.2) + (seq!['-'] + shared),
        call_ensures(is_newer, (high, low), r.0),
        call_ensures(is_newer, (low, high), r.1),
        call_ensures(is_newer, (high, short), r.2),
        ({
            ||| x == decimal(i) && y == decimal(j) && i > j
            ||| !is_numeric(x) && y == decimal(j)
            ||| !is_numeric(x) && !is_numeric(y) && 0 <= k < x.len() && k <= y.len() && (k < y.len()
                ==> x[k] > y[k]) && x.take(k) == y.take(k)
        }),
    ensures
        r.0,
        !r.1,
        r.2,
{
    let t = triple(n.0, n.1, n.2);
    let (px, py) = (shared + seq!['.'] + (x + more.0), shared + seq!['.'] + (y + more.1));
    law_decimal_is_read_back(i);
    law_decimal_is_read_back(j);
    lemma_no_plus(shared, x, more.0);
    lemma_no_plus(shared, y, more.1);
    let none = Seq::<char>::empty();
    lemma_triple(n.0, n.1, n.2, seq!['-'] + px);
    lemma_triple(n.0, n.1, n.2, seq!['-'] + py);
    lemma_triple(n.0, n.1, n.2, seq!['-'] + shared);
    assert(suffixed(t, Some(px), none) =~= high@);
    assert(suffixed(t, Some(py), none) =~= low@);
    assert(suffixed(t, Some(shared), none) =~= short@);
    lemma_pre_release(t, Some(px), none);
    lemma_pre_release(t, Some(py), none);
    lemma_pre_release(t, Some(shared), none);
    lemma_parts_around_a_dot(shared, x + more.0);
    lemma_parts_around_a_dot(shared, y + more.1);
    lemma_first_part(x, more.0);
    lemma_first_part(y, more.1);
    let parts = dot_parts(t);
    assert(same_numbers(parts, parts));
    lemma_same_numbers(parts, parts);
    let s = dot_parts(shared);
    let (a, b) = (dot_parts(px), dot_parts(py));
    let at = s.len() as int;
    if !is_numeric(x) && !is_numeric(y) {
        assert forall|m: int| 0 <= m < k implies x[m] == y[m] by {
            assert(x.take(k)[m] == y.take(k)[m]);
        }
        assert(later_at(x, y, k));
    }
    assert(id_above(x, y));
    assert(a[at] == x);
    assert(b[at] == y);
    assert(ranks_at(a, b, at));
    assert(ranks_at(a, s, at));
    lemma_ids_one_way(a, b);
}

/// Identifiers with dots between them have no plus sign.
proof fn lemma_no_plus(shared: Seq<char>, x: Seq<char>, m: Seq<char>)
    requires
        forall|i: int| 0 <= i < shared.len() ==> shared[i] != '+',
        is_id(x),
        is_more(m),
    ensures
        forall|i: int|
            0 <= i < (shared + seq!['.'] + (x + m)).len() ==> (shared + seq!['.'] + (x + m))[i]
                != '+',
{
    let s = shared + seq!['.'] + (x + m);
    assert forall|i: int| 0 <= i < s.len() implies s[i] != '+' by {
        let n = shared.len() as int;
        if i < n {
            assert(s[i] == shared[i]);
        } else if n < i < n + 1 + x.len() {
            assert(s[i] == x[i - n - 1]);
        } else if i > n {
            assert(s[i] == m[i - n - 1 - x.len()]);
        }
    }
}

/// Of texts of which one is no version, all that is known is whether they differ.
pub proof fn law_other_texts_differ_or_do_not(
    latest: &str,
    current: &str,
    r: bool,
    word: Seq<char>,
    c: char,
)
    requires
        call_ensures(is_newer, (latest, current), r),
        latest@ == seq![c] + word || current@ == seq![c] + word,
        !('0' <= c <= '9'),
    ensures
        r <==> latest@ != current@,
{
    let s = seq![c] + word;
    lemma_no_version(c, word);
}

/// A version starts with a digit.
proof fn lemma_no_version(c: char, word: Seq<char>)
    requires
        !('0' <= c <= '9'),
    ensures
        !is_version(seq![c] + word),
{
    let s = seq![c] + word;
    let t = numbers_part(s);
    lemma_first_at_splits(s, '+');
    lemma_first_at_splits(ranked_part(s), '-');
    if t.len() > 0 {
        assert(t[0] == c);
    }
    lemma_start_of_parts(t);
    assert(!is_numeric(dot_parts(t)[0]));
}

/// The first part is empty or starts as the text does.
proof fn lemma_start_of_parts(t: Seq<char>)
    ensures
        dot_parts(t).len() > 0,
        dot_parts(t).len() == 1 ==> dot_parts(t)[0] == t,
        dot_parts(t)[0].len() == 0 || t.len() > 0 && dot_parts(t)[0][0] == t[0],
    decreases t.len(),
{
    if t.len() > 0 {
        let before = t.drop_last();
        lemma_start_of_parts(before);
        assert(before.push(t.last()) =~= t);
    } else {
        assert(t =~= Seq::<char>::empty());
    }
}

/// However many numbers versions have, the first that differs decides, and a missing
/// one counts as 0.
pub proof fn law_first_number_that_differs_decides(
    shared: Seq<char>,
    i: nat,
    j: nat,
    more: (Seq<char>, Seq<char>),
    high: &str,
    low: &str,
    short: &str,
    r: (bool, bool, bool),
)
    requires
        high@ == shared + seq!['.'] + (decimal(i) + more.0),
        low@ == shared + seq!['.'] + (decimal(j) + more.1),
        short@ == shared,
        is_more(more.0) && is_more(more.1),
        forall|k: int| 0 <= k < high@.len() ==> high@[k] != '-' && high@[k] != '+',
        forall|k: int| 0 <= k < low@.len() ==> low@[k] != '-' && low@[k] != '+',
        is_version(high@) && is_version(low@) && is_version(shared),
        i > j,
        call_ensures(is_newer, (high, low), r.0),
        call_ensures(is_newer, (low, high), r.1),
        call_ensures(is_newer, (high, short), r.2),
    ensures
        r.0,
        !r.1,
        r.2,
{
    law_decimal_is_read_back(i);
    law_decimal_is_read_back(j);
    assert forall|k: int| 0 <= k < shared.len() implies shared[k] != '-' && shared[k] != '+' by {
        assert(high@[k] == shared[k]);
    }
    let none = Seq::<char>::empty();
    lemma_cut(high@, none);
    lemma_cut(low@, none);
    lemma_cut(shared, none);
    assert(high@ + none =~= high@);
    assert(low@ + none =~= low@);
    assert(shared + none =~= shared);
    lemma_parts_around_a_dot(shared, decimal(i) + more.0);
    lemma_parts_around_a_dot(shared, decimal(j) + more.1);
    lemma_first_part(decimal(i), more.0);
    lemma_first_part(decimal(j), more.1);
    let (a, b, s) = (dot_parts(high@), dot_parts(low@), dot_parts(shared));
    let at = s.len() as int;
    assert(a[at] == decimal(i) && b[at] == decimal(j));
    assert forall|k: int| 0 <= k < at implies #[trigger] number_at(b, k) == number_at(a, k) by {
        assert(a[k] == s[k] && b[k] == s[k]);
    }
    lemma_larger_number(b, a, at);
    assert forall|k: int| 0 <= k < at implies #[trigger] number_at(s, k) == number_at(a, k) by {
        assert(a[k] == s[k]);
    }
    lemma_larger_number(s, a, at);
}

/// Digits are a version, and so is a version with a dot and digits behind its numbers,
/// and one with a pre-release or build metadata behind them.
pub proof fn law_what_is_a_version(shared: Seq<char>, d: Seq<char>, tail: Seq<char>)
    requires
        d.len() > 0,
        forall|i: int| 0 <= i < d.len() ==> '0' <= #[trigger] d[i] <= '9',
        forall|i: int| 0 <= i < shared.len() ==> shared[i] != '-' && shared[i] != '+',
        tail.len() > 0 ==> tail[0] == '-' || tail[0] == '+',
    ensures
        is_version(d),
        is_version(shared) ==> is_version(shared + seq!['.'] + d),
        is_version(shared) ==> is_version(shared + tail),
{
    let none = Seq::<char>::empty();
    let longer = shared + seq!['.'] + d;
    assert forall|i: int| 0 <= i < longer.len() implies longer[i] != '-' && longer[i] != '+' by {
        if i < shared.len() {
            assert(longer[i] == shared[i]);
        } else if i > shared.len() {
            assert(longer[i] == d[i - shared.len() - 1]);
        }
    }
    lemma_cut(d, none);
    lemma_cut(shared, none);
    lemma_cut(longer, none);
    lemma_cut(shared, tail);
    assert(d + none =~= d);
    assert(shared + none =~= shared);
    assert(longer + none =~= longer);
    lemma_one_part(d);
    lemma_parts_around_a_dot(shared, d);
    assert(dot_parts(d) =~= seq![d]);
    assert(is_numeric(d));
    if is_version(shared) {
        let (s, parts) = (dot_parts(shared), dot_parts(longer));
        assert forall|i: int| 0 <= i < parts.len() implies is_numeric(#[trigger] parts[i]) by {
            if i < s.len() {
                assert(parts[i] == s[i]);
            } else {
                assert(parts[i] == d);
            }
        }
    }
}

/// A number that is missing counts as 0: a version is as new as the same one with
/// another number 0.
pub proof fn law_missing_numbers_count_as_zero(long: &str, short: &str, r: (bool, bool))
    requires
        long@ == short@ + seq!['.'] + decimal(0),
        forall|i: int| 0 <= i < short@.len() ==> short@[i] != '-' && short@[i] != '+',
        is_version(short@),
        call_ensures(is_newer, (long, short), r.0),
        call_ensures(is_newer, (short, long), r.1),
    ensures
        !r.0 && !r.1,
{
    law_decimal_is_read_back(0);
    let (z, none) = (decimal(0), Seq::<char>::empty());
    law_what_is_a_version(short@, z, none);
    assert forall|i: int| 0 <= i < long@.len() implies long@[i] != '-' && long@[i] != '+' by {
        if i < short@.len() {
            assert(long@[i] == short@[i]);
        } else if i > short@.len() {
            assert(long@[i] == z[i - short@.len() - 1]);
        }
    }
    lemma_cut(short@, none);
    lemma_cut(long@, none);
    assert(short@ + none =~= short@);
    assert(long@ + none =~= long@);
    lemma_pre_release(short@, None, none);
    lemma_pre_release(long@, None, none);
    assert(suffixed(short@, None, none) =~= short@);
    assert(suffixed(long@, None, none) =~= long@);
    lemma_one_part(z);
    assert(dot_parts(z) =~= seq![z]);
    lemma_parts_around_a_dot(short@, z);
    let (a, b) = (dot_parts(long@), dot_parts(short@));
    assert forall|i: int| 0 <= i implies #[trigger] number_at(a, i) == number_at(b, i) by {
        if i < b.len() {
            assert(a[i] == b[i]);
        } else if i == b.len() {
            assert(a[i] == z);
        }
    }
    assert(same_numbers(a, b));
    lemma_same_numbers(a, b);
}

/// Pre-releases of the same numbers rank by their first identifiers where those
/// differ: numbers by their value, a text above a number, and texts by the first
/// character that differs.
pub proof fn law_first_identifier_decides(
    n: (nat, nat, nat),
    x: Seq<char>,
    y: Seq<char>,
    more: (Seq<char>, Seq<char>),
    high: &str,
    low: &str,
    r: (bool, bool),
    i: nat,
    j: nat,
    k: int,
)
    requires
        is_id(x) && is_id(y) && is_more(more.0) && is_more(more.1),
        high@ == triple(n.0, n.1, n.2) + (seq!['-'] + (x + more.0)),
        low@ == triple(n.0, n.1, n.2) + (seq!['-'] + (y + more.1)),
        call_ensures(is_newer, (high, low), r.0),
        call_ensures(is_newer, (low, high), r.1),
        ({
            ||| x == decimal(i) && y == decimal(j) && i > j
            ||| has_other_than_digits(x) && y == decimal(j)
            ||| has_other_than_digits(x) && has_other_than_digits(y) && 0 <= k < x.len() && k
                <= y.len() && (k < y.len() ==> x[k] > y[k]) && x.take(k) == y.take(k)
        }),
    ensures
        r.0,
        !r.1,
{
    let t = triple(n.0, n.1, n.2);
    let (px, py) = (x + more.0, y + more.1);
    law_decimal_is_read_back(i);
    law_decimal_is_read_back(j);
    let none = Seq::<char>::empty();
    assert forall|m: int| 0 <= m < px.len() implies px[m] != '+' by {
        if m >= x.len() {
            assert(px[m] == more.0[m - x.len()]);
        }
    }
    assert forall|m: int| 0 <= m < py.len() implies py[m] != '+' by {
        if m >= y.len() {
            assert(py[m] == more.1[m - y.len()]);
        }
    }
    lemma_triple(n.0, n.1, n.2, seq!['-'] + px);
    lemma_triple(n.0, n.1, n.2, seq!['-'] + py);
    assert(suffixed(t, Some(px), none) =~= high@);
    assert(suffixed(t, Some(py), none) =~= low@);
    lemma_pre_release(t, Some(px), none);
    lemma_pre_release(t, Some(py), none);
    lemma_first_part(x, more.0);
    lemma_first_part(y, more.1);
    let parts = dot_parts(t);
    assert(same_numbers(parts, parts));
    lemma_same_numbers(parts, parts);
    if !is_numeric(x) && !is_numeric(y) {
        assert forall|m: int| 0 <= m < k implies x[m] == y[m] by {
            assert(x.take(k)[m] == y.take(k)[m]);
        }
        assert(later_at(x, y, k));
    }
    assert(id_above(x, y));
    assert(ranks_at(dot_parts(px), dot_parts(py), 0));
    lemma_ids_one_way(dot_parts(px), dot_parts(py));
}

/// A text that is empty or has a character in it that is no digit.
pub open spec fn has_other_than_digits(x: Seq<char>) -> bool {
    x.len() == 0 || exists|i: int| 0 <= i < x.len() && !('0' <= #[trigger] x[i] <= '9')
}

/// A text is no version, and all that is known of it is whether it differs from
/// another, where it is empty, where its numbers have another character in them than
/// digits and dots, and where there is nothing behind a dot.
pub proof fn law_what_is_no_version(
    a: Seq<char>,
    c: char,
    b: Seq<char>,
    s: &str,
    other: &str,
    r: (bool, bool),
)
    requires
        forall|i: int| 0 <= i < a.len() ==> a[i] != '-' && a[i] != '+',
        ({
            ||| s@.len() == 0
            ||| s@ == a + (seq![c] + b) && !('0' <= c <= '9') && c != '.' && c != '-' && c != '+'
            ||| s@ == a + seq!['.'] + b && (b.len() == 0 || b[0] == '.' || b[0] == '-' || b[0]
                == '+')
        }),
        call_ensures(is_newer, (s, other), r.0),
        call_ensures(is_newer, (other, s), r.1),
    ensures
        r.0 <==> s@ != other@,
        r.1 <==> s@ != other@,
{
    let t = numbers_part(s@);
    lemma_first_at_splits(s@, '+');
    lemma_first_at_splits(ranked_part(s@), '-');
    let ranked = ranked_part(s@);
    if s@.len() == 0 {
        assert(t =~= Seq::<char>::empty());
        assert(!is_numeric(dot_parts(t)[0]));
    } else if s@ == a + (seq![c] + b) && !('0' <= c <= '9') && c != '.' && c != '-' && c != '+' {
        lemma_numbers_go_on(s@, a.len() as int + 1);
        assert(t[a.len() as int] == s@[a.len() as int]);
        assert(s@[a.len() as int] == c);
        lemma_no_number(t, a.len() as int);
    } else {
        lemma_numbers_go_on(s@, a.len() as int + 1);
        let rest = t.skip(a.len() as int + 1);
        assert(t =~= a + seq!['.'] + rest) by {
            assert forall|i: int| 0 <= i < t.len() implies t[i] == (a + seq!['.'] + rest)[i] by {
                assert(t[i] == s@[i]);
            }
        }
        lemma_parts_around_a_dot(a, rest);
        let first = dot_parts(rest)[0];
        if rest.len() > 0 {
            assert(rest[0] == s@[a.len() as int + 1]);
            assert(b[0] == s@[a.len() as int + 1]);
            assert(rest[0] != '-' && rest[0] != '+');
            assert(rest =~= Seq::<char>::empty() + seq!['.'] + rest.drop_first());
            lemma_parts_around_a_dot(Seq::empty(), rest.drop_first());
        }
        assert(first.len() == 0);
        assert(dot_parts(t)[dot_parts(a).len() as int] == first);
    }
}

/// The numbers of a text go as far as there is no hyphen and no plus sign.
proof fn lemma_numbers_go_on(s: Seq<char>, n: int)
    requires
        0 <= n <= s.len(),
        forall|i: int| 0 <= i < n ==> s[i] != '-' && s[i] != '+',
    ensures
        numbers_part(s).len() >= n,
        numbers_part(s).len() <= s.len(),
        forall|i: int| 0 <= i < numbers_part(s).len() ==> #[trigger] numbers_part(s)[i] == s[i],
        forall|i: int|
            0 <= i < numbers_part(s).len() ==> #[trigger] numbers_part(s)[i] != '-'
                && numbers_part(s)[i] != '+',
        numbers_part(s).len() < s.len() ==> s[numbers_part(s).len() as int] == '-'
            || s[numbers_part(s).len() as int] == '+',
{
    lemma_first_at_splits(s, '+');
    let ranked = ranked_part(s);
    lemma_first_at_splits(ranked, '-');
}

/// A character that is no digit and no dot is in one of the parts.
proof fn lemma_no_number(t: Seq<char>, k: int)
    requires
        0 <= k < t.len(),
        !('0' <= t[k] <= '9'),
        t[k] != '.',
    ensures
        exists|i: int| 0 <= i < dot_parts(t).len() && !all_digits(#[trigger] dot_parts(t)[i]),
    decreases t.len(),
{
    let fewer = t.drop_last();
    let (parts, before) = (dot_parts(t), dot_parts(fewer));
    lemma_parts_around_a_dot(Seq::empty(), fewer);
    if k == t.len() - 1 {
        let p = parts.last();
        assert(p[p.len() - 1] == t[k]);
        assert(!all_digits(parts[parts.len() - 1]));
    } else {
        assert(fewer[k] == t[k]);
        lemma_no_number(fewer, k);
        let i = choose|i: int| 0 <= i < before.len() && !all_digits(#[trigger] before[i]);
        if i < before.len() - 1 || t.last() == '.' {
            assert(parts[i] == before[i]);
        } else {
            let j = choose|j: int|
                0 <= j < before[i].len() && !('0' <= #[trigger] before[i][j] <= '9');
            assert(parts[i][j] == before[i][j]);
        }
        assert(!all_digits(parts[i]));
    }
}

} // verus!
