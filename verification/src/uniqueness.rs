//! What holds of the names that a batch is given: when they are pairwise
//! distinct, and how names under different prefixes relate.

use vstd::prelude::*;
use crate::columns::{
    base_name, bases_of, count_in, generated, numbered, repeats_before, sanitized, unique_name,
    unique_names,
};
use crate::text::{decimal, is_digit, lemma_decimal_digits, lemma_decimal_injective};

verus! {

/// No two positions of the sequence hold the same text.
pub open spec fn pairwise_distinct(s: Seq<Seq<char>>) -> bool {
    forall|i: int, j: int| 0 <= i < j < s.len() ==> s[i] != s[j]
}

/// No base name of the batch is itself a numbered name that the batch gives
/// out for a repeat of another base.
pub open spec fn clash_free(bases: Seq<Seq<char>>) -> bool {
    forall|i: int, j: int|
        #![trigger bases[i], unique_name(bases, j)]
        0 <= i < bases.len() && 0 <= j < bases.len() && repeats_before(bases, j) >= 1
            ==> bases[i] != unique_name(bases, j)
}

/// Whether `s` begins with `p`.
pub open spec fn starts_with(s: Seq<char>, p: Seq<char>) -> bool {
    p.len() <= s.len() && s.take(p.len() as int) == p
}

/// A prefix followed by the separator.
pub open spec fn with_separator(prefix: Seq<char>) -> Seq<char> {
    prefix + seq!['_']
}

/// Two prefixes are apart when neither, followed by the separator, begins
/// the other followed by the separator.
pub open spec fn prefixes_apart(p: Seq<char>, q: Seq<char>) -> bool {
    !starts_with(with_separator(p), with_separator(q)) && !starts_with(
        with_separator(q),
        with_separator(p),
    )
}

/// Two numbered names with repeat numbers of at least 1 are equal only
/// where base and number are.
pub proof fn lemma_numbered_split(b1: Seq<char>, k1: nat, b2: Seq<char>, k2: nat)
    requires
        k1 >= 1,
        k2 >= 1,
        numbered(b1, k1) == numbered(b2, k2),
    ensures
        b1 == b2,
        k1 == k2,
{
    let d1 = decimal(k1);
    let d2 = decimal(k2);
    lemma_decimal_digits(k1);
    lemma_decimal_digits(k2);
    let s1 = b1 + seq!['_'] + d1;
    let s2 = b2 + seq!['_'] + d2;
    assert(s1 == s2);
    assert(s1.len() == b1.len() + 1 + d1.len());
    assert(s2.len() == b2.len() + 1 + d2.len());
    if d1.len() == d2.len() {
        assert(b1 =~= b2) by {
            assert forall|i: int| 0 <= i < b1.len() implies b1[i] == b2[i] by {
                assert(s1[i] == b1[i]);
                assert(s2[i] == b2[i]);
            }
        }
        assert(d1 =~= d2) by {
            assert forall|i: int| 0 <= i < d1.len() implies d1[i] == d2[i] by {
                assert(s1[b1.len() + 1 + i] == d1[i]);
                assert(s2[b2.len() + 1 + i] == d2[i]);
            }
        }
        lemma_decimal_injective(k1, k2);
    } else if d1.len() < d2.len() {
        let p = b1.len() as int;
        assert(s1[p] == '_');
        let at = p - b2.len() - 1;
        assert(0 <= at < d2.len());
        assert(s2[p] == d2[at]);
        assert(is_digit(d2[at]));
        assert(false);
    } else {
        let p = b2.len() as int;
        assert(s2[p] == '_');
        let at = p - b1.len() - 1;
        assert(0 <= at < d1.len());
        assert(s1[p] == d1[at]);
        assert(is_digit(d1[at]));
        assert(false);
    }
}

/// A numbered name with a repeat number of at least 1 is longer than its
/// base.
pub proof fn lemma_numbered_longer(base: Seq<char>, k: nat)
    requires
        k >= 1,
    ensures
        numbered(base, k).len() > base.len(),
        starts_with(numbered(base, k), base),
{
    lemma_decimal_digits(k);
    assert(numbered(base, k).take(base.len() as int) =~= base);
}

/// A longer prefix of a sequence holds everything at least as often.
pub proof fn lemma_count_in_grows(s: Seq<Seq<char>>, a: int, b: int, x: Seq<char>)
    requires
        0 <= a <= b <= s.len(),
    ensures
        count_in(s.take(a), x) <= count_in(s.take(b), x),
    decreases b - a,
{
    if a < b {
        lemma_count_in_grows(s, a, b - 1, x);
        assert(s.take(b).drop_last() =~= s.take(b - 1));
    }
}

/// Of two positions with the same base, the later has the larger repeat
/// number.
pub proof fn lemma_repeats_increase(bases: Seq<Seq<char>>, i: int, j: int)
    requires
        0 <= i < j < bases.len(),
        bases[i] == bases[j],
    ensures
        repeats_before(bases, i) < repeats_before(bases, j),
{
    assert(bases.take(i + 1).drop_last() =~= bases.take(i));
    assert(bases.take(i + 1).last() == bases[i]);
    lemma_count_in_grows(bases, i + 1, j, bases[i]);
}

/// What stands at least once in a sequence stands at some position of it.
pub proof fn lemma_count_in_witness(s: Seq<Seq<char>>, x: Seq<char>) -> (k: int)
    requires
        count_in(s, x) > 0,
    ensures
        0 <= k < s.len(),
        s[k] == x,
    decreases s.len(),
{
    if s.last() == x {
        s.len() - 1
    } else {
        lemma_count_in_witness(s.drop_last(), x)
    }
}

/// What stands nowhere in a sequence is counted 0 times.
pub proof fn lemma_count_in_none(s: Seq<Seq<char>>, x: Seq<char>)
    requires
        forall|k: int| 0 <= k < s.len() ==> s[k] != x,
    ensures
        count_in(s, x) == 0,
    decreases s.len(),
{
    if s.len() > 0 {
        lemma_count_in_none(s.drop_last(), x);
    }
}

/// Every base has a first position, and the name given out there is the
/// base itself.
pub proof fn lemma_first_position(bases: Seq<Seq<char>>, i: int) -> (first: int)
    requires
        0 <= i < bases.len(),
    ensures
        0 <= first <= i,
        bases[first] == bases[i],
        repeats_before(bases, first) == 0,
        unique_name(bases, first) == bases[i],
    decreases i,
{
    if repeats_before(bases, i) == 0 {
        i
    } else {
        let k = lemma_count_in_witness(bases.take(i), bases[i]);
        assert(bases.take(i)[k] == bases[k]);
        lemma_first_position(bases, k)
    }
}

/// Two names given out at different positions are equal only where the
/// base at one position is a numbered name given out at the other.
pub proof fn lemma_collision_is_clash(bases: Seq<Seq<char>>, i: int, j: int)
    requires
        0 <= i < j < bases.len(),
        unique_name(bases, i) == unique_name(bases, j),
    ensures
        (repeats_before(bases, j) >= 1 && bases[i] == unique_name(bases, j)) || (repeats_before(
            bases,
            i,
        ) >= 1 && bases[j] == unique_name(bases, i)),
{
    let ki = repeats_before(bases, i);
    let kj = repeats_before(bases, j);
    if bases[i] == bases[j] {
        lemma_repeats_increase(bases, i, j);
        if ki == 0 {
            lemma_numbered_longer(bases[j], kj);
        } else {
            lemma_numbered_split(bases[i], ki, bases[j], kj);
        }
    } else if ki >= 1 && kj >= 1 {
        lemma_numbered_split(bases[i], ki, bases[j], kj);
    }
}

/// The names given out for a batch are pairwise distinct exactly where no
/// base of the batch is a numbered name that the batch gives out.
pub proof fn lemma_distinct_iff_clash_free(bases: Seq<Seq<char>>)
    ensures
        pairwise_distinct(unique_names(bases)) <==> clash_free(bases),
{
    let names = unique_names(bases);
    if clash_free(bases) {
        assert forall|i: int, j: int| 0 <= i < j < names.len() implies names[i] != names[j] by {
            if names[i] == names[j] {
                lemma_collision_is_clash(bases, i, j);
                if repeats_before(bases, j) >= 1 && bases[i] == unique_name(bases, j) {
                    assert(bases[i] != unique_name(bases, j));
                } else {
                    assert(bases[j] != unique_name(bases, i));
                }
            }
        }
    } else {
        let (i, j) = choose|i: int, j: int|
            #![trigger bases[i], unique_name(bases, j)]
            0 <= i < bases.len() && 0 <= j < bases.len() && repeats_before(bases, j) >= 1
                && bases[i] == unique_name(bases, j);
        let first = lemma_first_position(bases, i);
        assert(names[first] == names[j]);
        assert(first != j);
        if first < j {
            assert(names[first] == names[j]);
        } else {
            assert(names[j] == names[first]);
        }
        assert(!pairwise_distinct(names));
    }
}

/// The names given out for a clash-free batch of columns are pairwise
/// distinct, and there is one for each column.
pub proof fn lemma_generated_distinct(columns: Seq<Seq<char>>, prefix: Seq<char>)
    requires
        clash_free(bases_of(columns, prefix)),
    ensures
        generated(columns, prefix).len() == columns.len(),
        pairwise_distinct(generated(columns, prefix)),
{
    lemma_distinct_iff_clash_free(bases_of(columns, prefix));
}

/// A batch of one column repeated any number of times is clash-free: its
/// names are the base, then the base with 1, 2, and so on.
pub proof fn lemma_equal_columns_clash_free(bases: Seq<Seq<char>>)
    requires
        forall|i: int, j: int| 0 <= i < bases.len() && 0 <= j < bases.len() ==> bases[i] == bases[j],
    ensures
        clash_free(bases),
        pairwise_distinct(unique_names(bases)),
{
    assert forall|i: int, j: int|
        #![trigger bases[i], unique_name(bases, j)]
        0 <= i < bases.len() && 0 <= j < bases.len() && repeats_before(bases, j) >= 1
        implies bases[i] != unique_name(bases, j) by {
        assert(bases[i] == bases[j]);
        lemma_numbered_longer(bases[j], repeats_before(bases, j));
    }
    lemma_distinct_iff_clash_free(bases);
}

/// Where the base names are already pairwise distinct, each is given out
/// as it is.
pub proof fn lemma_distinct_bases_unchanged(bases: Seq<Seq<char>>)
    requires
        pairwise_distinct(bases),
    ensures
        unique_names(bases) == bases,
{
    assert forall|i: int| 0 <= i < bases.len() implies unique_name(bases, i) == bases[i] by {
        assert forall|k: int| 0 <= k < bases.take(i).len() implies bases.take(i)[k] != bases[i] by {
            assert(bases.take(i)[k] == bases[k]);
        }
        lemma_count_in_none(bases.take(i), bases[i]);
    }
    assert(unique_names(bases) =~= bases);
}

/// A name given out under a prefix begins with the prefix and the
/// separator.
pub proof fn lemma_name_starts_with_prefix(columns: Seq<Seq<char>>, prefix: Seq<char>, i: int)
    requires
        0 <= i < columns.len(),
    ensures
        starts_with(generated(columns, prefix)[i], with_separator(prefix)),
{
    let bases = bases_of(columns, prefix);
    let base = bases[i];
    let head = with_separator(prefix);
    assert(base == prefix + seq!['_'] + sanitized(columns[i]));
    assert(base.take(head.len() as int) =~= head);
    let k = repeats_before(bases, i);
    let name = generated(columns, prefix)[i];
    assert(name == numbered(base, k));
    if k >= 1 {
        lemma_numbered_longer(base, k);
        assert(name.take(head.len() as int) =~= base.take(head.len() as int));
    }
}

/// Of two beginnings of one text, the shorter begins the longer.
pub proof fn lemma_beginnings_nest(s: Seq<char>, u: Seq<char>, v: Seq<char>)
    requires
        starts_with(s, u),
        starts_with(s, v),
        u.len() <= v.len(),
    ensures
        starts_with(v, u),
{
    assert(v.take(u.len() as int) =~= s.take(u.len() as int)) by {
        assert forall|k: int| 0 <= k < u.len() implies v[k] == s[k] by {
            assert(s.take(v.len() as int)[k] == s[k]);
        }
    }
}

/// Names given out under two prefixes that are apart never coincide,
/// whatever the two batches of columns hold.
pub proof fn lemma_apart_prefixes_never_collide(
    first: Seq<Seq<char>>,
    p: Seq<char>,
    second: Seq<Seq<char>>,
    q: Seq<char>,
)
    requires
        prefixes_apart(p, q),
    ensures
        forall|i: int, j: int|
            0 <= i < first.len() && 0 <= j < second.len() ==> #[trigger] generated(first, p)[i]
                != #[trigger] generated(second, q)[j],
{
    assert forall|i: int, j: int| 0 <= i < first.len() && 0 <= j < second.len() implies
        #[trigger] generated(first, p)[i] != #[trigger] generated(second, q)[j] by {
        let a = generated(first, p)[i];
        let b = generated(second, q)[j];
        lemma_name_starts_with_prefix(first, p, i);
        lemma_name_starts_with_prefix(second, q, j);
        if a == b {
            if with_separator(p).len() <= with_separator(q).len() {
                lemma_beginnings_nest(a, with_separator(p), with_separator(q));
            } else {
                lemma_beginnings_nest(a, with_separator(q), with_separator(p));
            }
        }
    }
}

/// Running the names of a first pass through a second pass under a prefix
/// that is apart from the first gives names none of which is a name of the
/// first pass.
pub proof fn lemma_second_pass_never_collides(columns: Seq<Seq<char>>, p: Seq<char>, q: Seq<char>)
    requires
        prefixes_apart(p, q),
    ensures
        forall|i: int, j: int|
            0 <= i < columns.len() && 0 <= j < columns.len() ==> #[trigger] generated(
                generated(columns, p),
                q,
            )[i] != #[trigger] generated(columns, p)[j],
{
    let once = generated(columns, p);
    lemma_apart_prefixes_never_collide(once, q, columns, p);
}

/// Equal texts after a common beginning are equal.
pub proof fn lemma_cancel_beginning(p: Seq<char>, a: Seq<char>, b: Seq<char>)
    requires
        p + a == p + b,
    ensures
        a == b,
{
    assert((p + a).len() == p.len() + a.len());
    assert((p + b).len() == p.len() + b.len());
    assert(a =~= b) by {
        assert forall|k: int| 0 <= k < a.len() implies a[k] == b[k] by {
            assert((p + a)[p.len() + k] == a[k]);
            assert((p + b)[p.len() + k] == b[k]);
        }
    }
}

/// Two columns have the same base under one prefix exactly where their
/// sanitised forms are the same.
pub proof fn lemma_same_base(prefix: Seq<char>, a: Seq<char>, b: Seq<char>)
    ensures
        base_name(prefix, a) == base_name(prefix, b) <==> sanitized(a) == sanitized(b),
{
    if base_name(prefix, a) == base_name(prefix, b) {
        assert(prefix + seq!['_'] + sanitized(a) =~= (prefix + seq!['_']) + sanitized(a));
        assert(prefix + seq!['_'] + sanitized(b) =~= (prefix + seq!['_']) + sanitized(b));
        lemma_cancel_beginning(prefix + seq!['_'], sanitized(a), sanitized(b));
    }
}

/// The repeat number of a column does not depend on the prefix.
pub proof fn lemma_repeats_ignore_prefix(
    columns: Seq<Seq<char>>,
    p: Seq<char>,
    q: Seq<char>,
    n: int,
    c: Seq<char>,
)
    requires
        0 <= n <= columns.len(),
    ensures
        count_in(bases_of(columns, p).take(n), base_name(p, c)) == count_in(
            bases_of(columns, q).take(n),
            base_name(q, c),
        ),
    decreases n,
{
    if n > 0 {
        lemma_repeats_ignore_prefix(columns, p, q, n - 1, c);
        assert(bases_of(columns, p).take(n).drop_last() =~= bases_of(columns, p).take(n - 1));
        assert(bases_of(columns, q).take(n).drop_last() =~= bases_of(columns, q).take(n - 1));
        lemma_same_base(p, columns[n - 1], c);
        lemma_same_base(q, columns[n - 1], c);
    }
}

/// Under a different prefix every column of a batch gets a different name.
pub proof fn lemma_prefix_changes_name(
    columns: Seq<Seq<char>>,
    p: Seq<char>,
    q: Seq<char>,
    i: int,
)
    requires
        p != q,
        0 <= i < columns.len(),
    ensures
        generated(columns, p)[i] != generated(columns, q)[i],
{
    let k = repeats_before(bases_of(columns, p), i);
    lemma_repeats_ignore_prefix(columns, p, q, i, columns[i]);
    assert(repeats_before(bases_of(columns, q), i) == k);
    let clean = sanitized(columns[i]);
    let tail = if k == 0 {
        seq!['_'] + clean
    } else {
        seq!['_'] + clean + seq!['_'] + decimal(k)
    };
    let a = generated(columns, p)[i];
    let b = generated(columns, q)[i];
    assert(a =~= p + tail);
    assert(b =~= q + tail);
    if a == b {
        assert(p.len() == q.len());
        assert(p =~= q) by {
            assert forall|m: int| 0 <= m < p.len() implies p[m] == q[m] by {
                assert((p + tail)[m] == p[m]);
                assert((q + tail)[m] == q[m]);
            }
        }
    }
}

} // verus!
