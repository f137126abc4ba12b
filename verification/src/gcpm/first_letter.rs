//! The first letter of a text, with the punctuation around it.

use crate::text::trimmed_start;
use unicode_properties::{GeneralCategoryGroup, UnicodeGeneralCategory};
use unicode_segmentation::{Graphemes, UnicodeSegmentation};
use vstd::prelude::*;

verus! {

/// The groups of Unicode general categories.
#[derive(Debug, Clone, Copy, PartialEq, Eq, Structural)]
pub enum CharGroup {
    Letter,
    Mark,
    Number,
    Punctuation,
    Symbol,
    Separator,
    Other,
}

/// The group of the general category that `unicode_properties` has for a character.
pub uninterp spec fn char_group(c: char) -> CharGroup;

/// The extended grapheme clusters that `unicode_segmentation` finds in a text.
pub uninterp spec fn grapheme_clusters(s: Seq<char>) -> Seq<Seq<char>>;

/// The clusters that an iterator has still to yield.
pub uninterp spec fn pending_clusters(g: Graphemes<'_>) -> Seq<Seq<char>>;

/// Texts joined from the `i`-th on.
pub open spec fn joined(texts: Seq<Seq<char>>, i: int) -> Seq<char>
    decreases texts.len() - i,
{
    if i >= texts.len() {
        Seq::empty()
    } else {
        texts[i] + joined(texts, i + 1)
    }
}

#[verifier::external_type_specification]
#[verifier::external_body]
pub struct ExGraphemes<'a>(Graphemes<'a>);

/// `UnicodeGeneralCategory::general_category_group`: the group of a character.
#[verifier::external_body]
fn group_of(c: char) -> (g: CharGroup)
    ensures
        g == char_group(c),
{
    match c.general_category_group() {
        GeneralCategoryGroup::Letter => CharGroup::Letter,
        GeneralCategoryGroup::Mark => CharGroup::Mark,
        GeneralCategoryGroup::Number => CharGroup::Number,
        GeneralCategoryGroup::Punctuation => CharGroup::Punctuation,
        GeneralCategoryGroup::Symbol => CharGroup::Symbol,
        GeneralCategoryGroup::Separator => CharGroup::Separator,
        GeneralCategoryGroup::Other => CharGroup::Other,
    }
}

/// `UnicodeSegmentation::graphemes` over extended clusters: an iterator that will yield
/// all clusters of a text. They are adjacent slices of the text that cover it.
#[verifier::external_body]
fn open_clusters<'a>(s: &'a str) -> (g: Graphemes<'a>)
    ensures
        pending_clusters(g) == grapheme_clusters(s@),
        joined(pending_clusters(g), 0) == s@,
{
    s.graphemes(true)
}

/// `Graphemes::next`: takes the next cluster.
#[verifier::external_body]
fn next_cluster<'a>(g: &mut Graphemes<'a>) -> (r: Option<&'a str>)
    ensures
        match r {
            Some(s) => pending_clusters(*old(g)).len() > 0 && s@ == pending_clusters(*old(g))[0]
                && pending_clusters(*final(g)) == pending_clusters(*old(g)).drop_first(),
            None => pending_clusters(*old(g)).len() == 0 && pending_clusters(*final(g))
                == pending_clusters(*old(g)),
        },
{
    g.next()
}

/// A grapheme cluster and the groups of its characters.
pub ghost struct Cluster {
    pub text: Seq<char>,
    pub groups: Seq<CharGroup>,
}

/// The groups of the characters of a text.
pub open spec fn groups_of(s: Seq<char>) -> Seq<CharGroup> {
    s.map_values(|c: char| char_group(c))
}

/// The clusters of a text with their groups.
pub open spec fn clusters_of(s: Seq<char>) -> Seq<Cluster> {
    let texts = grapheme_clusters(s);
    Seq::new(texts.len(), |i: int| Cluster { text: texts[i], groups: groups_of(texts[i]) })
}

/// Whether a cluster is punctuation or a symbol throughout.
pub open spec fn punctuation(groups: Seq<CharGroup>) -> bool {
    forall|i: int|
        0 <= i < groups.len() ==> (#[trigger] groups[i] == CharGroup::Punctuation || groups[i]
            == CharGroup::Symbol)
}

/// Whether a cluster holds a letter or a digit.
pub open spec fn letter(groups: Seq<CharGroup>) -> bool {
    exists|i: int|
        0 <= i < groups.len() && (#[trigger] groups[i] == CharGroup::Letter || groups[i]
            == CharGroup::Number)
}

/// What a cluster means for the first letter.
#[derive(Debug, Clone, Copy, PartialEq, Eq, Structural)]
pub enum ClusterRole {
    /// Punctuation, which goes with the first letter.
    Punctuation,
    /// The first letter.
    Letter,
    /// The first letter and its punctuation end before the cluster.
    End,
    /// There is no first letter.
    Nothing,
}

/// The role of a cluster, given whether the first letter has been found.
pub open spec fn role(found: bool, groups: Seq<CharGroup>) -> ClusterRole {
    if punctuation(groups) {
        ClusterRole::Punctuation
    } else if found {
        ClusterRole::End
    } else if letter(groups) {
        ClusterRole::Letter
    } else {
        ClusterRole::Nothing
    }
}

/// The first letter of the clusters from `i` on, after the text read before: leading
/// punctuation, the letter and trailing punctuation, or nothing where there is no
/// letter.
pub open spec fn first_letter(clusters: Seq<Cluster>, i: int, read: Seq<char>, found: bool) -> Seq<
    char,
>
    decreases clusters.len() - i,
{
    if i >= clusters.len() {
        if found {
            read
        } else {
            Seq::empty()
        }
    } else {
        match role(found, clusters[i].groups) {
            ClusterRole::Punctuation => first_letter(
                clusters,
                i + 1,
                read + clusters[i].text,
                found,
            ),
            ClusterRole::Letter => first_letter(clusters, i + 1, read + clusters[i].text, true),
            ClusterRole::End => read,
            ClusterRole::Nothing => Seq::empty(),
        }
    }
}

/// The role of a cluster, given whether the first letter has been found.
pub fn cluster_role(found: bool, groups: &Vec<CharGroup>) -> (r: ClusterRole)
    ensures
        r == role(found, groups@),
{
    let mut all_punctuation = true;
    let mut any_letter = false;
    let mut i: usize = 0;
    while i < groups.len()
        invariant
            i <= groups.len(),
            all_punctuation == punctuation(groups@.take(i as int)),
            any_letter == letter(groups@.take(i as int)),
        decreases groups.len() - i,
    {
        let ghost before = groups@.take(i as int);
        let ghost after = groups@.take(i + 1);
        assert(after =~= before.push(groups@[i as int]));
        let g = groups[i];
        let was_letter = any_letter;
        if !(g == CharGroup::Punctuation || g == CharGroup::Symbol) {
            all_punctuation = false;
            assert(!punctuation(after)) by {
                assert(after[i as int] == g);
            }
        } else {
            assert(punctuation(before) ==> punctuation(after));
            assert(!punctuation(before) ==> !punctuation(after)) by {
                if !punctuation(before) {
                    let j = choose|j: int|
                        0 <= j < before.len() && !(#[trigger] before[j] == CharGroup::Punctuation
                            || before[j] == CharGroup::Symbol);
                    assert(after[j] == before[j]);
                }
            }
        }
        if g == CharGroup::Letter || g == CharGroup::Number {
            any_letter = true;
            assert(after[i as int] == g);
        } else {
            assert(letter(before) ==> letter(after)) by {
                if letter(before) {
                    let j = choose|j: int|
                        0 <= j < before.len() && (#[trigger] before[j] == CharGroup::Letter
                            || before[j] == CharGroup::Number);
                    assert(after[j] == before[j]);
                }
            }
        }
        i += 1;
    }
    assert(groups@.take(groups.len() as int) =~= groups@);
    if all_punctuation {
        ClusterRole::Punctuation
    } else if found {
        ClusterRole::End
    } else if any_letter {
        ClusterRole::Letter
    } else {
        ClusterRole::Nothing
    }
}

/// The groups of the characters of a text.
fn collect_groups(s: &str) -> (r: Vec<CharGroup>)
    ensures
        r@ == groups_of(s@),
{
    let mut groups: Vec<CharGroup> = Vec::new();
    for c in it: s.chars()
        invariant
            it.seq() == s@,
            groups@ == groups_of(s@).take(it.index() as int),
    {
        groups.push(group_of(c));
        assert(groups@ =~= groups_of(s@).take(it.index() + 1));
    }
    assert(groups_of(s@).take(s@.len() as int) =~= groups_of(s@));
    groups
}

/// The first letter of a text: leading punctuation and symbols, the first cluster with a
/// letter or a digit, and the punctuation and symbols after it. White space before all
/// of it is skipped; anything else before the letter leaves no first letter. Clusters
/// after that are not looked at. The text without that white space starts with its
/// first letter.
pub fn compute_first_letter(text: &str) -> (r: String)
    ensures
        r@ == first_letter(clusters_of(trimmed_start(text@)), 0, Seq::empty(), false),
        r@.is_prefix_of(trimmed_start(text@)),
{
    let trimmed = text.trim_start();
    let ghost all = clusters_of(trimmed@);
    let ghost texts = grapheme_clusters(trimmed@);
    let ghost whole = first_letter(all, 0, Seq::empty(), false);
    let mut pending = open_clusters(trimmed);
    proof {
        lemma_clusters_join(trimmed@, 0);
        law_first_letter_is_prefix(all);
    }
    let mut read = String::new();
    let mut found = false;
    let ghost mut i: int = 0;
    assert(texts.skip(0) =~= texts);
    loop
        invariant
            0 <= i <= all.len(),
            trimmed@ == trimmed_start(text@),
            whole == first_letter(all, 0, Seq::empty(), false),
            whole.is_prefix_of(trimmed@),
            all == clusters_of(trimmed@),
            texts == grapheme_clusters(trimmed@),
            pending_clusters(pending) == texts.skip(i),
            first_letter(all, i, read@, found) == whole,
        decreases all.len() - i,
    {
        match next_cluster(&mut pending) {
            None => {
                return if found {
                    read
                } else {
                    String::new()
                };
            },
            Some(cluster) => {
                assert(cluster@ == all[i].text);
                let groups = collect_groups(cluster);
                match cluster_role(found, &groups) {
                    ClusterRole::Punctuation => {
                        read.append(cluster);
                    },
                    ClusterRole::Letter => {
                        read.append(cluster);
                        found = true;
                    },
                    ClusterRole::End => {
                        return read;
                    },
                    ClusterRole::Nothing => {
                        return String::new();
                    },
                }
                proof {
                    i = i + 1;
                }
                assert(texts.skip(i - 1).drop_first() =~= texts.skip(i));
            },
        }
    }
}

/// The text of the clusters from `i` on.
pub open spec fn joined_from(clusters: Seq<Cluster>, i: int) -> Seq<char>
    decreases clusters.len() - i,
{
    if i >= clusters.len() {
        Seq::empty()
    } else {
        clusters[i].text + joined_from(clusters, i + 1)
    }
}

proof fn lemma_clusters_join(s: Seq<char>, i: int)
    requires
        i >= 0,
    ensures
        joined_from(clusters_of(s), i) == joined(grapheme_clusters(s), i),
    decreases grapheme_clusters(s).len() - i,
{
    if i < grapheme_clusters(s).len() {
        lemma_clusters_join(s, i + 1);
    }
}

proof fn lemma_first_letter_is_prefix(
    clusters: Seq<Cluster>,
    i: int,
    read: Seq<char>,
    found: bool,
)
    ensures
        first_letter(clusters, i, read, found).is_prefix_of(read + joined_from(clusters, i)),
    decreases clusters.len() - i,
{
    if i < clusters.len() {
        let next = read + clusters[i].text;
        lemma_first_letter_is_prefix(clusters, i + 1, next, found);
        lemma_first_letter_is_prefix(clusters, i + 1, next, true);
        assert(next + joined_from(clusters, i + 1) =~= read + joined_from(clusters, i));
    }
}

/// The first letter is a prefix of the text that the clusters make up.
pub proof fn law_first_letter_is_prefix(clusters: Seq<Cluster>)
    ensures
        first_letter(clusters, 0, Seq::empty(), false).is_prefix_of(joined_from(clusters, 0)),
{
    lemma_first_letter_is_prefix(clusters, 0, Seq::empty(), false);
    assert(Seq::<char>::empty() + joined_from(clusters, 0) =~= joined_from(clusters, 0));
}

proof fn lemma_found_keeps_read(clusters: Seq<Cluster>, i: int, read: Seq<char>)
    ensures
        read.is_prefix_of(first_letter(clusters, i, read, true)),
    decreases clusters.len() - i,
{
    if i < clusters.len() && role(true, clusters[i].groups) == ClusterRole::Punctuation {
        lemma_found_keeps_read(clusters, i + 1, read + clusters[i].text);
    }
}

/// Where the first cluster holds a letter or a digit, it is part of the first letter.
pub proof fn law_leading_letter_is_taken(clusters: Seq<Cluster>)
    requires
        clusters.len() > 0,
        letter(clusters[0].groups),
        !punctuation(clusters[0].groups),
    ensures
        clusters[0].text.is_prefix_of(first_letter(clusters, 0, Seq::empty(), false)),
{
    assert(Seq::<char>::empty() + clusters[0].text =~= clusters[0].text);
    lemma_found_keeps_read(clusters, 1, clusters[0].text);
}

/// Whether every character of a cluster is punctuation or a symbol.
pub open spec fn only_marks(c: Cluster) -> bool {
    forall|i: int|
        0 <= i < c.groups.len() ==> (#[trigger] c.groups[i]) == CharGroup::Punctuation || c.groups[i] == CharGroup::Symbol
}

/// Whether some character of a cluster is a letter or a digit.
pub open spec fn some_letter(c: Cluster) -> bool {
    exists|i: int|
        0 <= i < c.groups.len() && ((#[trigger] c.groups[i]) == CharGroup::Letter || c.groups[i] == CharGroup::Number)
}

/// Whether all clusters from one index to another are.
pub open spec fn marks_between(clusters: Seq<Cluster>, from: int, to: int) -> bool {
    forall|i: int| from <= i < to ==> only_marks(#[trigger] clusters[i])
}

/// The first letter is all of the punctuation before the first letter or digit, that
/// letter or digit, and all of the punctuation behind it.
pub proof fn law_first_letter_has_its_punctuation(clusters: Seq<Cluster>, p: int, e: int)
    requires
        0 <= p < e <= clusters.len(),
        marks_between(clusters, 0, p),
        some_letter(clusters[p]) && !only_marks(clusters[p]),
        marks_between(clusters, p + 1, e),
        e < clusters.len() ==> !only_marks(clusters[e]),
    ensures
        first_letter(clusters, 0, Seq::empty(), false) == joined_from(clusters.take(e), 0),
{
    lemma_shape(clusters, 0, p, e, Seq::empty(), false);
    assert(Seq::<char>::empty() + joined_from(clusters.take(e), 0) =~= joined_from(clusters.take(e), 0));
}

proof fn lemma_shape(clusters: Seq<Cluster>, i: int, p: int, e: int, read: Seq<char>, found: bool)
    requires
        0 <= i <= e <= clusters.len(),
        0 <= p < e,
        found <==> i > p,
        marks_between(clusters, 0, p),
        some_letter(clusters[p]) && !only_marks(clusters[p]),
        marks_between(clusters, p + 1, e),
        e < clusters.len() ==> !only_marks(clusters[e]),
    ensures
        first_letter(clusters, i, read, found) == read + joined_from(clusters.take(e), i),
    decreases e - i,
{
    if i < e {
        let c = clusters[i];
        if i != p {
            assert(only_marks(clusters[i]));
            assert(punctuation(c.groups));
        } else {
            assert(!punctuation(c.groups));
            assert(letter(c.groups));
        }
        lemma_shape(clusters, i + 1, p, e, read + c.text, i >= p);
        assert(clusters.take(e)[i] == c);
        assert(read + c.text + joined_from(clusters.take(e), i + 1) =~= read + (c.text + joined_from(
            clusters.take(e),
            i + 1,
        )));
    } else {
        if e < clusters.len() {
            assert(!punctuation(clusters[e].groups));
        }
        assert(read + joined_from(clusters.take(e), i) =~= read);
    }
}

/// Where something that is neither punctuation nor a letter comes first, or nothing but
/// punctuation comes at all, there is no first letter.
pub proof fn law_no_first_letter_without_a_letter(clusters: Seq<Cluster>, p: int)
    requires
        0 <= p <= clusters.len(),
        marks_between(clusters, 0, p),
        p < clusters.len() ==> !only_marks(clusters[p]) && !some_letter(clusters[p]),
    ensures
        first_letter(clusters, 0, Seq::empty(), false).len() == 0,
{
    lemma_no_letter(clusters, 0, p, Seq::empty());
}

proof fn lemma_no_letter(clusters: Seq<Cluster>, i: int, p: int, read: Seq<char>)
    requires
        0 <= i <= p <= clusters.len(),
        marks_between(clusters, 0, p),
        p < clusters.len() ==> !only_marks(clusters[p]) && !some_letter(clusters[p]),
    ensures
        first_letter(clusters, i, read, false).len() == 0,
    decreases p - i,
{
    if i < p {
        assert(only_marks(clusters[i]));
        assert(punctuation(clusters[i].groups));
        lemma_no_letter(clusters, i + 1, p, read + clusters[i].text);
    } else if p < clusters.len() {
        assert(!punctuation(clusters[p].groups));
        assert(!letter(clusters[p].groups));
    }
}

} // verus!
