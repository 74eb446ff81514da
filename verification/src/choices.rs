//! All the ways of choosing one literal from each list of a list of
//! lists: the cartesian product of the lists.

use crate::normal_form::{literals, Literal, Term};
use itertools::Itertools;
use vstd::prelude::*;

verus! {

/// Each list of `tails`, with `head` put in front.
pub open spec fn each_with_head(head: Literal, tails: Seq<Seq<Literal>>) -> Seq<Seq<Literal>> {
    tails.map_values(|tail: Seq<Literal>| seq![head] + tail)
}

/// Each list of `tails` with each literal of `heads` in front: first all
/// that start with the first head, then all that start with the second,
/// and so on.
pub open spec fn heads_times_tails(heads: Seq<Literal>, tails: Seq<Seq<Literal>>) -> Seq<
    Seq<Literal>,
>
    decreases heads.len(),
{
    if heads.len() == 0 {
        Seq::empty()
    } else {
        each_with_head(heads[0], tails) + heads_times_tails(heads.drop_first(), tails)
    }
}

/// The ways of choosing one literal from each list, as lists of the
/// chosen literals. The choice from the last list changes fastest. No
/// list to choose from leaves one way, the empty choice; an empty list
/// among them leaves none.
pub open spec fn choices(lists: Seq<Seq<Literal>>) -> Seq<Seq<Literal>>
    decreases lists.len(),
{
    if lists.len() == 0 {
        seq![Seq::empty()]
    } else {
        heads_times_tails(lists[0], choices(lists.drop_first()))
    }
}

/// Whether `choice` holds one literal of each list, in the lists' order.
pub open spec fn is_choice(choice: Seq<Literal>, lists: Seq<Seq<Literal>>) -> bool {
    &&& choice.len() == lists.len()
    &&& forall|i: int| 0 <= i < lists.len() ==> (#[trigger] lists[i]).contains(choice[i])
}

/// The lists of literals of a list of term lists.
pub open spec fn literal_lists(lists: Seq<Vec<Term>>) -> Seq<Seq<Literal>> {
    lists.map_values(|list: Vec<Term>| literals(list@))
}

/// Every member of `heads_times_tails` is a head in front of a tail.
proof fn lemma_heads_times_tails_sound(heads: Seq<Literal>, tails: Seq<Seq<Literal>>, k: int)
    requires
        0 <= k < heads_times_tails(heads, tails).len(),
    ensures
        heads_times_tails(heads, tails)[k].len() > 0,
        heads.contains(heads_times_tails(heads, tails)[k][0]),
        tails.contains(heads_times_tails(heads, tails)[k].drop_first()),
    decreases heads.len(),
{
    let first = each_with_head(heads[0], tails);
    if k < first.len() {
        assert(first[k].drop_first() =~= tails[k]);
        assert(heads[0] == first[k][0]);
    } else {
        lemma_heads_times_tails_sound(heads.drop_first(), tails, k - first.len());
        let head = heads_times_tails(heads, tails)[k][0];
        let at = choose|i: int| 0 <= i < heads.drop_first().len() && heads.drop_first()[i] == head;
        assert(heads[at + 1] == head);
    }
}

/// Every head in front of every tail is a member of `heads_times_tails`.
proof fn lemma_heads_times_tails_complete(
    heads: Seq<Literal>,
    tails: Seq<Seq<Literal>>,
    head: Literal,
    tail: Seq<Literal>,
)
    requires
        heads.contains(head),
        tails.contains(tail),
    ensures
        heads_times_tails(heads, tails).contains(seq![head] + tail),
    decreases heads.len(),
{
    let first = each_with_head(heads[0], tails);
    let rest = heads_times_tails(heads.drop_first(), tails);
    if heads[0] == head {
        let at = choose|i: int| 0 <= i < tails.len() && tails[i] == tail;
        assert(first[at] == seq![head] + tail);
        assert((first + rest)[at] == seq![head] + tail);
    } else {
        let at = choose|i: int| 0 <= i < heads.len() && heads[i] == head;
        assert(heads.drop_first()[at - 1] == head);
        lemma_heads_times_tails_complete(heads.drop_first(), tails, head, tail);
        let k = choose|k: int| 0 <= k < rest.len() && rest[k] == seq![head] + tail;
        assert((first + rest)[first.len() + k] == seq![head] + tail);
    }
}

/// Every member of `choices(lists)` holds one literal of each list.
pub proof fn lemma_choices_sound(lists: Seq<Seq<Literal>>, k: int)
    requires
        0 <= k < choices(lists).len(),
    ensures
        is_choice(choices(lists)[k], lists),
    decreases lists.len(),
{
    if lists.len() > 0 {
        let tails = choices(lists.drop_first());
        let choice = choices(lists)[k];
        lemma_heads_times_tails_sound(lists[0], tails, k);
        let at = choose|i: int| 0 <= i < tails.len() && tails[i] == choice.drop_first();
        lemma_choices_sound(lists.drop_first(), at);
        assert forall|i: int| 0 <= i < lists.len() implies (#[trigger] lists[i]).contains(
            choice[i],
        ) by {
            if i > 0 {
                assert(lists.drop_first()[i - 1] == lists[i]);
                assert(choice.drop_first()[i - 1] == choice[i]);
            }
        }
    }
}

/// Every list that holds one literal of each list is a member of
/// `choices(lists)`.
pub proof fn lemma_choices_complete(lists: Seq<Seq<Literal>>, choice: Seq<Literal>)
    requires
        is_choice(choice, lists),
    ensures
        choices(lists).contains(choice),
    decreases lists.len(),
{
    if lists.len() == 0 {
        assert(choice =~= Seq::empty());
        assert(choices(lists)[0] == choice);
    } else {
        let tail = choice.drop_first();
        assert forall|i: int| 0 <= i < lists.drop_first().len() implies (
        #[trigger] lists.drop_first()[i]).contains(tail[i]) by {
            assert(lists.drop_first()[i] == lists[i + 1]);
        }
        lemma_choices_complete(lists.drop_first(), tail);
        lemma_heads_times_tails_complete(
            lists[0],
            choices(lists.drop_first()),
            choice[0],
            tail,
        );
        assert(seq![choice[0]] + tail =~= choice);
    }
}

/// The cartesian product of lists of terms, by
/// `Itertools::multi_cartesian_product` of the `itertools` crate. Taken on
/// trust: the call gives each way of taking one term from each list, as a
/// list of copies of the terms taken in the order of the lists; the ways
/// come in the order in which [`choices`] lists them, the choice from the
/// last list changing fastest; with no list at all there is one way, the
/// empty one. The product holds as many lists as the lengths of the given
/// lists multiplied.
#[verifier::external_body]
pub(crate) fn cartesian_product(lists: Vec<Vec<Term>>) -> (r: Vec<Vec<Term>>)
    ensures
        literal_lists(r@) == choices(literal_lists(lists@)),
{
    lists.into_iter().multi_cartesian_product().collect()
}

} // verus!
