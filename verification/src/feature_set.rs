//! Feature sets: the combinations of a project's optional features, each
//! written as its feature names joined by single spaces.

use vstd::prelude::*;
use itertools::Itertools;
use crate::binomial::{binomial_sum, pow2};
use crate::combination::{
    advance, as_ints, combinations, enumerated_before, first_combination, full_combination,
    is_combination, lemma_proper_combinations_below_complete,
    lemma_proper_combinations_below_ordered,
    lemma_combination_lower_bound, lemma_combination_upper_bound, lemma_combinations_from_first,
    lemma_combinations_from_members,
    lemma_proper_combinations_below_extends, lemma_proper_combinations_below_members,
    lemma_proper_combinations_count, lemma_successor_walks_list, proper_combinations,
    proper_combinations_below,
};

verus! {

/// The texts `names`, in order, with `sep` between each two neighbours:
/// nothing before the first and nothing after the last.
pub open spec fn joined(names: Seq<Seq<char>>, sep: Seq<char>) -> Seq<char>
    decreases names.len(),
{
    if names.len() == 0 {
        Seq::<char>::empty()
    } else if names.len() == 1 {
        names[0]
    } else {
        joined(names.drop_last(), sep) + sep + names.last()
    }
}

/// The separator between the feature names of a feature set: one space.
pub open spec fn separator() -> Seq<char> {
    seq![' ']
}

/// The features that the combination `c` picks, in the order of `c`.
pub open spec fn selected(features: Seq<Seq<char>>, c: Seq<int>) -> Seq<Seq<char>> {
    Seq::new(c.len(), |j: int| features[c[j]])
}

/// The feature set of the combination `c`, as text.
pub open spec fn feature_set_text(features: Seq<Seq<char>>, c: Seq<int>) -> Seq<char> {
    joined(selected(features, c), separator())
}

/// Every feature set that is enumerated for `features`, in order: one for
/// each combination of at least one feature and of fewer than all of them.
pub open spec fn feature_sets(features: Seq<Seq<char>>) -> Seq<Seq<char>> {
    proper_combinations(features.len()).map_values(|c: Seq<int>| feature_set_text(features, c))
}

/// Whether a feature is one of the optional ones. The feature `default`
/// only names those that are on unless switched off, and is none itself.
pub open spec fn is_optional(name: Seq<char>) -> bool {
    name != "default"@
}

/// The optional features among `names`, in the order of `names`.
pub open spec fn optional_features_of(names: Seq<Seq<char>>) -> Seq<Seq<char>> {
    names.filter(|name: Seq<char>| is_optional(name))
}

/// The optional features of a list that ends in `name` are those before
/// it, and `name` itself if it is optional.
proof fn lemma_optional_features_push(names: Seq<Seq<char>>, name: Seq<char>)
    ensures
        optional_features_of(names.push(name)) == if is_optional(name) {
            optional_features_of(names).push(name)
        } else {
            optional_features_of(names)
        },
{
    reveal(Seq::filter);
    assert(names.push(name).drop_last() =~= names);
}

/// Picks the optional features out of the feature names of a project:
/// every name but `default`, in the order given.
pub fn optional_features(names: &Vec<String>) -> (features: Vec<String>)
    ensures
        features.deep_view() == optional_features_of(names.deep_view()),
{
    let reserved = "default".to_owned();
    let mut features: Vec<String> = Vec::new();
    let mut i: usize = 0;
    proof {
        reveal(Seq::filter);
        assert(names.deep_view().take(0) =~= Seq::<Seq<char>>::empty());
        assert(features.deep_view() =~= Seq::<Seq<char>>::empty());
    }
    while i < names.len()
        invariant
            i <= names@.len(),
            reserved@ == "default"@,
            features.deep_view() == optional_features_of(names.deep_view().take(i as int)),
        decreases names@.len() - i,
    {
        let ghost before = features.deep_view();
        let ghost front = names.deep_view().take(i as int);
        proof {
            lemma_optional_features_push(front, names@[i as int]@);
            assert(names.deep_view().take(i + 1) =~= front.push(names@[i as int]@));
        }
        if names[i] != reserved {
            features.push(names[i].clone());
            assert(features.deep_view() =~= before.push(names@[i as int]@));
        }
        i += 1;
    }
    assert(names.deep_view().take(i as int) =~= names.deep_view());
    features
}

/// Joins `names` with `sep` between them, by `Itertools::join` of the
/// itertools crate on the iterator over `names`.
///
/// Trusted: `join` writes the first item, then for each further item the
/// separator and the item, each item as its `Display` impl gives it, which
/// for a string is the string itself. The contract states exactly that.
#[verifier::external_body]
fn join_names(names: &Vec<&String>, sep: &str) -> (text: String)
    ensures
        text@ == joined(names.deep_view(), sep@),
{
    names.iter().join(sep)
}

/// Writes out the feature set that `indices` picks from `features`: the
/// picked names in the order of `indices`, joined by single spaces.
pub fn feature_set_string(features: &Vec<String>, indices: &Vec<usize>) -> (text: String)
    requires
        forall|j: int| 0 <= j < indices@.len() ==> indices@[j] < features@.len(),
    ensures
        text@ == feature_set_text(features.deep_view(), as_ints(indices@)),
{
    let mut picked: Vec<&String> = Vec::new();
    let mut j: usize = 0;
    while j < indices.len()
        invariant
            j <= indices@.len(),
            picked@.len() == j,
            forall|t: int| 0 <= t < indices@.len() ==> indices@[t] < features@.len(),
            forall|t: int| 0 <= t < j ==> picked@[t]@ == features@[indices@[t] as int]@,
        decreases indices@.len() - j,
    {
        picked.push(&features[indices[j]]);
        j += 1;
    }
    proof {
        reveal_strlit(" ");
        assert(" "@ =~= separator());
        assert(picked.deep_view() =~= selected(features.deep_view(), as_ints(indices@)));
    }
    join_names(&picked, " ")
}

/// The lengths of the texts `names`, added up.
pub open spec fn total_len(names: Seq<Seq<char>>) -> nat
    decreases names.len(),
{
    if names.len() == 0 {
        0
    } else {
        total_len(names.drop_last()) + names.last().len()
    }
}

/// A joined text is as long as its parts together, with one separator for
/// each part but the first.
pub proof fn lemma_joined_len(names: Seq<Seq<char>>, sep: Seq<char>)
    ensures
        joined(names, sep).len() == if names.len() == 0 {
            0
        } else {
            total_len(names) + (names.len() - 1) * sep.len()
        },
    decreases names.len(),
{
    if names.len() == 1 {
        assert(total_len(names.drop_last()) == 0);
    } else if names.len() > 1 {
        lemma_joined_len(names.drop_last(), sep);
        assert((names.len() - 1) * sep.len() == (names.len() - 2) * sep.len() + sep.len())
            by (nonlinear_arith);
    }
}

/// The features that a combination picks are together no longer than all
/// the features together.
pub proof fn lemma_selected_total_len(features: Seq<Seq<char>>, c: Seq<int>)
    requires
        is_combination(c, features.len()),
    ensures
        total_len(selected(features, c)) <= total_len(features),
    decreases features.len(),
{
    if features.len() == 0 {
        if c.len() > 0 {
            lemma_combination_lower_bound(c, 0, 0, 0);
            lemma_combination_upper_bound(c, 0, 0, 0);
        }
    } else {
        let pool = features.len() as int;
        let fewer = features.drop_last();
        if c.len() > 0 && c.last() == pool - 1 {
            let front = c.drop_last();
            assert forall|j: int| 0 <= j < front.len() implies 0 <= #[trigger] front[j] < pool
                - 1 by {
                assert(front[j] == c[j]);
                assert(c[j] < c[c.len() - 1]);
            }
            assert(selected(features, c).drop_last() =~= selected(fewer, front));
            lemma_selected_total_len(fewer, front);
        } else {
            assert forall|j: int| 0 <= j < c.len() implies 0 <= #[trigger] c[j] < pool - 1 by {
                if j < c.len() - 1 {
                    assert(c[j] < c[c.len() - 1]);
                }
            }
            assert(selected(features, c) =~= selected(fewer, c));
            lemma_selected_total_len(fewer, c);
        }
    }
}

/// The number of feature sets that are enumerated for `features`: the sum
/// of the binomials of the sizes from one up to the number of features,
/// exclusive. That is none for fewer than two features, and two to the power
/// of the number of features, less two, for any list that is not empty.
pub proof fn lemma_feature_sets_count(features: Seq<Seq<char>>)
    ensures
        feature_sets(features).len() == binomial_sum(features.len(), 1, features.len()),
        features.len() < 2 ==> feature_sets(features).len() == 0,
        features.len() >= 1 ==> feature_sets(features).len() == pow2(features.len()) - 2,
{
    lemma_proper_combinations_count(features.len());
}

/// What each enumerated feature set looks like: it is the text of a
/// combination of at least one feature and of fewer than all, so it holds
/// the names of the features at strictly increasing places of the list, each
/// once and in the order of the list, with one space between neighbours.
pub proof fn lemma_feature_set_shape(features: Seq<Seq<char>>, i: int)
    requires
        0 <= i < feature_sets(features).len(),
    ensures
        feature_sets(features)[i] == joined(
            selected(features, proper_combinations(features.len())[i]),
            separator(),
        ),
        is_combination(proper_combinations(features.len())[i], features.len()),
        1 <= proper_combinations(features.len())[i].len() < features.len(),
{
    lemma_proper_combinations_below_members(features.len(), features.len(), i);
}

/// No feature set is left out: the text of every combination of at least
/// one feature and of fewer than all is enumerated.
pub proof fn lemma_every_proper_set_enumerated(features: Seq<Seq<char>>, c: Seq<int>)
    requires
        is_combination(c, features.len()),
        1 <= c.len() < features.len(),
    ensures
        feature_sets(features).contains(feature_set_text(features, c)),
{
    lemma_proper_combinations_below_complete(features.len(), features.len(), c);
    let i = choose|i: int|
        0 <= i < proper_combinations(features.len()).len() && proper_combinations(
            features.len(),
        )[i] == c;
    assert(feature_sets(features)[i] == feature_set_text(features, c));
}

/// The feature sets come in the order of their combinations: of two of them,
/// the earlier one is from a combination of fewer features, or of as many
/// that comes first in lexicographic order.
pub proof fn lemma_feature_sets_ordered(features: Seq<Seq<char>>, i: int, j: int)
    requires
        0 <= i < j < feature_sets(features).len(),
    ensures
        enumerated_before(
            proper_combinations(features.len())[i],
            proper_combinations(features.len())[j],
        ),
{
    lemma_proper_combinations_below_ordered(features.len(), features.len(), i, j);
}

/// The feature set of all the features is never enumerated: each enumerated
/// set comes from a combination other than the full one, and its text is
/// shorter than the text of the full set.
pub proof fn lemma_full_set_not_enumerated(features: Seq<Seq<char>>, i: int)
    requires
        0 <= i < feature_sets(features).len(),
    ensures
        proper_combinations(features.len())[i] != full_combination(features.len()),
        feature_sets(features)[i].len() < feature_set_text(
            features,
            full_combination(features.len()),
        ).len(),
        feature_sets(features)[i] != feature_set_text(features, full_combination(features.len())),
{
    let c = proper_combinations(features.len())[i];
    lemma_feature_set_shape(features, i);
    lemma_selected_total_len(features, c);
    lemma_joined_len(selected(features, c), separator());
    assert(selected(features, full_combination(features.len())) =~= features);
    lemma_joined_len(features, separator());
}

/// Enumerating again gives the same feature sets in the same order: what
/// is still to come depends only on the features and on how many sets have
/// been handed out.
pub proof fn lemma_enumeration_repeats(first: FeatureSets, second: FeatureSets)
    requires
        first.features() == second.features(),
        first.produced() == second.produced(),
    ensures
        first.remaining() == second.remaining(),
{
}

/// An enumerator of the feature sets of a list of features.
///
/// It hands the feature sets out one at a time and keeps only the indices of
/// the combination that comes next, so the sets are never held all at once.
pub struct FeatureSets {
    features: Vec<String>,
    /// The combination that is handed out next, unless `done`.
    indices: Vec<usize>,
    done: bool,
    /// Where `indices` stands among the combinations of its size.
    rank: Ghost<nat>,
}

impl FeatureSets {
    /// The feature names that the sets are made of.
    pub closed spec fn features(&self) -> Seq<Seq<char>> {
        self.features.deep_view()
    }

    /// The enumerator holds a combination of the enumerated sizes, and knows
    /// its place.
    pub closed spec fn wf(&self) -> bool {
        let pool = self.features@.len();
        let size = self.indices@.len();
        !self.done ==> {
            &&& 1 <= size < pool
            &&& self.rank@ < combinations(pool, size).len()
            &&& as_ints(self.indices@) == combinations(pool, size)[self.rank@ as int]
        }
    }

    /// How many feature sets have been handed out so far.
    pub closed spec fn produced(&self) -> nat {
        if self.done {
            feature_sets(self.features()).len()
        } else {
            proper_combinations_below(self.features@.len(), self.indices@.len()).len() + self.rank@
        }
    }

    /// The feature sets that are still to come, in order.
    pub open spec fn remaining(&self) -> Seq<Seq<char>> {
        feature_sets(self.features()).skip(self.produced() as int)
    }

    /// No more feature sets are handed out than there are.
    pub proof fn lemma_produced_in_range(&self)
        requires
            self.wf(),
        ensures
            self.produced() <= feature_sets(self.features()).len(),
    {
        if !self.done {
            lemma_proper_combinations_below_extends(
                self.features@.len(),
                self.indices@.len(),
                self.features@.len(),
                self.rank@ as int,
            );
        }
    }

    /// An enumerator that stands before the first feature set of `features`.
    pub fn new(features: Vec<String>) -> (sets: FeatureSets)
        ensures
            sets.wf(),
            sets.features() == features.deep_view(),
            sets.produced() == 0,
    {
        assert(features.deep_view().len() == features@.len());
        if features.len() < 2 {
            FeatureSets { features, indices: Vec::new(), done: true, rank: Ghost(0) }
        } else {
            let indices = first_combination(1);
            proof {
                lemma_combinations_from_first(0, features@.len() as int, 1);
                assert(as_ints(indices@) =~= combinations(features@.len(), 1)[0]);
            }
            FeatureSets { features, indices, done: false, rank: Ghost(0) }
        }
    }

    /// Hands out the next feature set, or `None` once all have been handed
    /// out.
    pub fn next_set(&mut self) -> (next: Option<String>)
        requires
            old(self).wf(),
        ensures
            final(self).wf(),
            final(self).features() == old(self).features(),
            match next {
                Some(text) => {
                    &&& old(self).produced() < feature_sets(old(self).features()).len()
                    &&& text@ == feature_sets(old(self).features())[old(self).produced() as int]
                    &&& final(self).produced() == old(self).produced() + 1
                },
                None => {
                    &&& old(self).produced() == feature_sets(old(self).features()).len()
                    &&& final(self).produced() == old(self).produced()
                },
            },
    {
        if self.done {
            return None;
        }
        let pool = self.features.len();
        let size = self.indices.len();
        let ghost rank = self.rank@ as int;
        proof {
            assert(self.features.deep_view().len() == pool);
            lemma_combinations_from_members(0, pool as int, size as nat, rank);
            assert forall|j: int| 0 <= j < size implies self.indices@[j] < pool by {
                assert(as_ints(self.indices@)[j] == self.indices@[j]);
            }
            lemma_proper_combinations_below_extends(pool as nat, size as nat, pool as nat, rank);
            lemma_successor_walks_list(0, pool as int, size as nat, rank);
        }
        let text = feature_set_string(&self.features, &self.indices);
        let moved = advance(&mut self.indices, pool);
        if moved {
            self.rank = Ghost((rank + 1) as nat);
            proof {
                lemma_combinations_from_members(0, pool as int, size as nat, rank + 1);
                assert(self.indices@.len() == as_ints(self.indices@).len());
            }
        } else if size + 1 < pool {
            self.indices = first_combination(size + 1);
            self.rank = Ghost(0);
            proof {
                lemma_combinations_from_first(0, pool as int, (size + 1) as nat);
                assert(as_ints(self.indices@) =~= combinations(pool as nat, (size + 1) as nat)[0]);
            }
        } else {
            self.done = true;
        }
        Some(text)
    }

    /// Hands out all the feature sets that are still to come, in order.
    pub fn collect_remaining(&mut self) -> (sets: Vec<String>)
        requires
            old(self).wf(),
        ensures
            final(self).wf(),
            final(self).features() == old(self).features(),
            sets.deep_view() == old(self).remaining(),
            final(self).produced() == feature_sets(old(self).features()).len(),
    {
        let mut sets: Vec<String> = Vec::new();
        let ghost all = feature_sets(self.features());
        let ghost start = self.produced() as int;
        proof {
            self.lemma_produced_in_range();
        }
        loop
            invariant
                self.wf(),
                self.features() == old(self).features(),
                all == feature_sets(self.features()),
                start == old(self).produced(),
                start <= self.produced() <= all.len(),
                sets@.len() == self.produced() - start,
                forall|t: int| 0 <= t < sets@.len() ==> sets@[t]@ == all[start + t],
            ensures
                self.produced() == all.len(),
            decreases all.len() - self.produced(),
        {
            match self.next_set() {
                Some(text) => {
                    sets.push(text);
                },
                None => {
                    break ;
                },
            }
        }
        assert(sets.deep_view() =~= old(self).remaining());
        sets
    }
}

} // verus!
