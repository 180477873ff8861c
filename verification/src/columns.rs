//! Column-name normalisation: sanitising a raw header, and giving every
//! column of a batch its own name under a source prefix.

use vstd::prelude::*;
use crate::registry::ColumnNameRegistry;
use crate::table::texts;
use crate::text::{decimal, push_decimal, push_text};
use crate::uniqueness::{clash_free, lemma_distinct_iff_clash_free, pairwise_distinct};

verus! {

/// Whether a character is alphanumeric by the Unicode rules that
/// `char::is_alphanumeric` goes by.
pub uninterp spec fn unicode_alphanumeric(c: char) -> bool;

/// `char::is_alphanumeric` tells whether the character is alphabetic or
/// numeric by its Unicode properties.
pub assume_specification[ char::is_alphanumeric ](c: char) -> (b: bool)
    ensures
        b == unicode_alphanumeric(c),
;

/// Whether sanitising leaves a character as it is: alphanumeric characters
/// and the underscore stay.
pub open spec fn keeps(c: char) -> bool {
    unicode_alphanumeric(c) || c == '_'
}

/// What sanitising makes of one character.
pub open spec fn sanitized_char(c: char) -> char {
    if keeps(c) {
        c
    } else {
        '_'
    }
}

/// The sanitised form of a name: character by character, with nothing
/// collapsed and nothing trimmed.
pub open spec fn sanitized(name: Seq<char>) -> Seq<char> {
    Seq::new(name.len(), |i: int| sanitized_char(name[i]))
}

/// The base name of a column under a source prefix: the prefix, an
/// underscore, and the sanitised column.
pub open spec fn base_name(prefix: Seq<char>, column: Seq<char>) -> Seq<char> {
    prefix + seq!['_'] + sanitized(column)
}

/// The base names of a batch of columns, in order.
pub open spec fn bases_of(columns: Seq<Seq<char>>, prefix: Seq<char>) -> Seq<Seq<char>> {
    Seq::new(columns.len(), |i: int| base_name(prefix, columns[i]))
}

/// How often `x` stands in `s`.
pub open spec fn count_in(s: Seq<Seq<char>>, x: Seq<char>) -> nat
    decreases s.len(),
{
    if s.len() == 0 {
        0
    } else {
        count_in(s.drop_last(), x) + if s.last() == x {
            1nat
        } else {
            0nat
        }
    }
}

/// How often the base name at position `i` stands before that position.
pub open spec fn repeats_before(bases: Seq<Seq<char>>, i: int) -> nat {
    count_in(bases.take(i), bases[i])
}

/// A base name with its repeat number: the base itself for number 0, else
/// the base, an underscore and the number in decimal.
pub open spec fn numbered(base: Seq<char>, k: nat) -> Seq<char> {
    if k == 0 {
        base
    } else {
        base + seq!['_'] + decimal(k)
    }
}

/// The name given out at position `i`.
pub open spec fn unique_name(bases: Seq<Seq<char>>, i: int) -> Seq<char> {
    numbered(bases[i], repeats_before(bases, i))
}

/// The names given out for a batch of base names, in order.
pub open spec fn unique_names(bases: Seq<Seq<char>>) -> Seq<Seq<char>> {
    Seq::new(bases.len(), |i: int| unique_name(bases, i))
}

/// The names given out for a batch of columns under a source prefix.
pub open spec fn generated(columns: Seq<Seq<char>>, prefix: Seq<char>) -> Seq<Seq<char>> {
    unique_names(bases_of(columns, prefix))
}

/// Replaces every character that is neither alphanumeric nor an underscore
/// by an underscore. Length and positions stay as they are.
pub fn sanitize_column_name(name: &str) -> (clean: String)
    ensures
        clean@ == sanitized(name@),
        clean@.len() == name@.len(),
        forall|i: int|
            0 <= i < name@.len() ==> if keeps(name@[i]) {
                #[trigger] clean@[i] == name@[i]
            } else {
                clean@[i] == '_'
            },
{
    let mut clean = String::new();
    for c in it: name.chars()
        invariant
            it.seq() == name@,
            clean@ == sanitized(name@).take(it.index() as int),
    {
        let kept = if c.is_alphanumeric() || c == '_' {
            c
        } else {
            '_'
        };
        clean.push(kept);
        assert(sanitized(name@).take(it.index() as int).push(kept) =~= sanitized(name@).take(
            it.index() + 1,
        ));
    }
    assert(sanitized(name@).take(name@.len() as int) =~= sanitized(name@));
    clean
}

/// Counting in a sequence with one more element.
pub proof fn lemma_count_in_push(s: Seq<Seq<char>>, last: Seq<char>, x: Seq<char>)
    ensures
        count_in(s.push(last), x) == count_in(s, x) + if last == x {
            1nat
        } else {
            0nat
        },
{
    assert(s.push(last).drop_last() =~= s);
}

/// Nothing stands more often in a sequence than the sequence is long.
pub proof fn lemma_count_in_bound(s: Seq<Seq<char>>, x: Seq<char>)
    ensures
        count_in(s, x) <= s.len(),
    decreases s.len(),
{
    if s.len() > 0 {
        lemma_count_in_bound(s.drop_last(), x);
    }
}

/// Gives every column of the batch a name of its own under `file_prefix`.
/// The n-th column's base is the prefix, an underscore and the sanitised
/// column. The first column with a base gets the base; the one that repeats
/// it for the k-th time gets the base, an underscore and k. Counting starts
/// anew with every call. The names are pairwise distinct unless a base of
/// the batch is itself such a numbered name of the batch.
pub fn generate_unique_column_names(columns: Vec<String>, file_prefix: &str) -> (names: Vec<
    String,
>)
    ensures
        names@.len() == columns@.len(),
        texts(names@) == generated(texts(columns@), file_prefix@),
        pairwise_distinct(texts(names@)) <==> clash_free(
            bases_of(texts(columns@), file_prefix@),
        ),
{
    proof {
        lemma_distinct_iff_clash_free(bases_of(texts(columns@), file_prefix@));
    }
    let ghost bases = bases_of(texts(columns@), file_prefix@);
    let mut registry = ColumnNameRegistry::new();
    let mut names: Vec<String> = Vec::new();
    let total = columns.len();
    let mut i: usize = 0;
    assert(bases.take(0) =~= Seq::<Seq<char>>::empty());
    while i < total
        invariant
            i <= total == columns@.len(),
            bases == bases_of(texts(columns@), file_prefix@),
            registry.well_formed(),
            forall|b: Seq<char>| #[trigger] registry.count_of(b) == count_in(bases.take(i as int), b),
            names@.len() == i,
            forall|k: int| 0 <= k < i ==> (#[trigger] names@[k])@ == unique_name(bases, k),
        decreases total - i,
    {
        let clean = sanitize_column_name(columns[i].as_str());
        let mut name = String::new();
        push_text(&mut name, file_prefix);
        name.push('_');
        push_text(&mut name, clean.as_str());
        assert(name@ =~= bases[i as int]);
        proof {
            lemma_count_in_bound(bases.take(i as int), name@);
            assert(registry.count_of(name@) == count_in(bases.take(i as int), name@));
        }
        let ghost earlier = registry;
        let before = registry.claim(name.clone());
        if before > 0 {
            name.push('_');
            push_decimal(&mut name, before);
        }
        assert(name@ =~= unique_name(bases, i as int));
        assert forall|b: Seq<char>| #[trigger]
            registry.count_of(b) == count_in(bases.take(i + 1), b) by {
            assert(bases.take(i + 1) =~= bases.take(i as int).push(bases[i as int]));
            lemma_count_in_push(bases.take(i as int), bases[i as int], b);
            assert(earlier.count_of(b) == count_in(bases.take(i as int), b));
        }
        names.push(name);
        i += 1;
    }
    assert(texts(names@) =~= generated(texts(columns@), file_prefix@));
    names
}

} // verus!
