use vstd::prelude::*;

verus! {

/// A game position that a depth-first search can explore in place: it offers
/// candidate actions, takes one, and takes it back.
///
/// The view of a state is its position, and every contract speaks of
/// positions. An implementation chooses the eight spec functions and proves
/// `candidate_is_reversible` of them; the search relies on nothing else.
pub trait GameState: View + Sized {
    type Action;

    /// The positions the engine may be run on.
    spec fn valid(position: Self::V) -> bool;

    /// Whether the position is a terminal, accepted one.
    spec fn won(position: Self::V) -> bool;

    /// The actions to try from the position, in the order to try them.
    spec fn candidates(position: Self::V) -> Seq<Self::Action>;

    /// The actions that `apply` accepts in the position.
    spec fn applicable(position: Self::V, action: Self::Action) -> bool;

    /// The position after the action.
    spec fn applied(position: Self::V, action: Self::Action) -> Self::V;

    /// The actions that `revert` accepts in the position.
    spec fn revertible(position: Self::V, action: Self::Action) -> bool;

    /// The position after the action is taken back.
    spec fn reverted(position: Self::V, action: Self::Action) -> Self::V;

    /// A bound on the number of actions that can still follow one another.
    spec fn depth(position: Self::V) -> nat;

    /// Every candidate of a valid position that is not won can be applied,
    /// leads to a valid position of smaller depth, and can be reverted there,
    /// which gives the first position back.
    proof fn candidate_is_reversible(position: Self::V, index: int)
        requires
            Self::valid(position),
            !Self::won(position),
            0 <= index < Self::candidates(position).len(),
        ensures
            Self::applicable(position, Self::candidates(position)[index]),
            Self::valid(Self::applied(position, Self::candidates(position)[index])),
            Self::depth(Self::applied(position, Self::candidates(position)[index])) < Self::depth(
                position,
            ),
            Self::revertible(
                Self::applied(position, Self::candidates(position)[index]),
                Self::candidates(position)[index],
            ),
            Self::reverted(
                Self::applied(position, Self::candidates(position)[index]),
                Self::candidates(position)[index],
            ) == position,
    ;

    fn is_win(&self) -> (won: bool)
        requires
            Self::valid(self@),
        ensures
            won == Self::won(self@),
    ;

    fn actions(&self) -> (actions: Vec<Self::Action>)
        requires
            Self::valid(self@),
        ensures
            actions@ == Self::candidates(self@),
    ;

    fn apply(&mut self, action: &Self::Action)
        requires
            Self::valid(old(self)@),
            Self::applicable(old(self)@, *action),
        ensures
            final(self)@ == Self::applied(old(self)@, *action),
    ;

    fn revert(&mut self, action: &Self::Action)
        requires
            Self::valid(old(self)@),
            Self::revertible(old(self)@, *action),
        ensures
            final(self)@ == Self::reverted(old(self)@, *action),
    ;
}

/// The position in which the depth-first search from `position` ends: the
/// position itself where it is won, else the end of the search below the
/// first candidate from which one is found; `None` where there is none.
pub open spec fn search<G: GameState>(position: G::V) -> Option<G::V>
    decreases G::depth(position), 1nat, 0nat,
    when G::valid(position)
{
    if G::won(position) {
        Some(position)
    } else {
        search_from::<G>(position, 0)
    }
}

/// The end of the search below the candidates of `position` from the one at
/// index `first` on, tried in order.
pub open spec fn search_from<G: GameState>(position: G::V, first: nat) -> Option<G::V>
    decreases G::depth(position), 0nat, G::candidates(position).len() - first,
    when G::valid(position) && !G::won(position)
{
    if first >= G::candidates(position).len() {
        None
    } else {
        proof {
            G::candidate_is_reversible(position, first as int);
        }
        match search::<G>(G::applied(position, G::candidates(position)[first as int])) {
            Some(end) => Some(end),
            None => search_from::<G>(position, first + 1),
        }
    }
}

/// The position reached from `position` by taking, at each position on the
/// way, the candidate at the next of the chosen indices; `None` where an
/// index names no candidate or the position it is to be used at is won.
pub open spec fn descend<G: GameState>(position: G::V, choices: Seq<int>) -> Option<G::V>
    decreases choices.len(),
{
    if choices.len() == 0 {
        Some(position)
    } else if !G::won(position) && 0 <= choices[0] < G::candidates(position).len() {
        descend::<G>(
            G::applied(position, G::candidates(position)[choices[0]]),
            choices.drop_first(),
        )
    } else {
        None
    }
}

/// A search that ends in a position ends in a valid, won one, which the
/// returned choices of candidates lead to.
pub proof fn lemma_search_ends_in_a_win<G: GameState>(position: G::V) -> (choices: Seq<int>)
    requires
        G::valid(position),
        search::<G>(position).is_some(),
    ensures
        descend::<G>(position, choices) == search::<G>(position),
        G::valid(search::<G>(position).unwrap()),
        G::won(search::<G>(position).unwrap()),
    decreases G::depth(position), 1nat, 0nat,
{
    if G::won(position) {
        Seq::empty()
    } else {
        lemma_search_from_ends_in_a_win::<G>(position, 0)
    }
}

proof fn lemma_search_from_ends_in_a_win<G: GameState>(position: G::V, first: nat) -> (choices:
    Seq<int>)
    requires
        G::valid(position),
        !G::won(position),
        search_from::<G>(position, first).is_some(),
    ensures
        descend::<G>(position, choices) == search_from::<G>(position, first),
        G::valid(search_from::<G>(position, first).unwrap()),
        G::won(search_from::<G>(position, first).unwrap()),
    decreases G::depth(position), 0nat, G::candidates(position).len() - first,
{
    G::candidate_is_reversible(position, first as int);
    let next = G::applied(position, G::candidates(position)[first as int]);
    if search::<G>(next).is_some() {
        let rest = lemma_search_ends_in_a_win::<G>(next);
        let choices = seq![first as int] + rest;
        assert(choices.drop_first() =~= rest);
        choices
    } else {
        lemma_search_from_ends_in_a_win::<G>(position, first + 1)
    }
}

/// Where the search below the candidates from `first` on finds nothing, the
/// search from the position after any one of them finds nothing.
proof fn lemma_search_from_is_exhaustive<G: GameState>(position: G::V, first: nat, index: int)
    requires
        G::valid(position),
        !G::won(position),
        search_from::<G>(position, first).is_none(),
        first <= index < G::candidates(position).len(),
    ensures
        search::<G>(G::applied(position, G::candidates(position)[index])).is_none(),
    decreases index - first,
{
    G::candidate_is_reversible(position, first as int);
    if first < index {
        lemma_search_from_is_exhaustive::<G>(position, first + 1, index);
    }
}

/// A search that ends in no position has missed none: no choices of
/// candidates lead from the position to a won one.
pub proof fn lemma_search_is_exhaustive<G: GameState>(position: G::V, choices: Seq<int>)
    requires
        G::valid(position),
        search::<G>(position).is_none(),
        descend::<G>(position, choices).is_some(),
    ensures
        !G::won(descend::<G>(position, choices).unwrap()),
    decreases choices.len(),
{
    if choices.len() > 0 {
        let next = G::applied(position, G::candidates(position)[choices[0]]);
        G::candidate_is_reversible(position, choices[0]);
        lemma_search_from_is_exhaustive::<G>(position, 0, choices[0]);
        lemma_search_is_exhaustive::<G>(next, choices.drop_first());
    }
}

/// Searches depth first, in place, for a won position below the given one.
///
/// Returns whether there is one. If so the state is left in the first one in
/// the order of the candidates; if not it is left in the position it had.
pub fn solve<G: GameState>(game_state: &mut G) -> (solved: bool)
    requires
        G::valid(old(game_state)@),
    ensures
        solved == search::<G>(old(game_state)@).is_some(),
        final(game_state)@ == (match search::<G>(old(game_state)@) {
            Some(end) => end,
            None => old(game_state)@,
        }),
        G::valid(final(game_state)@),
        solved ==> G::won(final(game_state)@),
    decreases G::depth(old(game_state)@),
{
    if game_state.is_win() {
        return true;
    }
    let ghost start = game_state@;
    let actions = game_state.actions();
    let mut i: usize = 0;
    while i < actions.len()
        invariant
            i <= actions.len(),
            actions@ == G::candidates(start),
            game_state@ == start,
            start == old(game_state)@,
            G::valid(start),
            !G::won(start),
            search::<G>(start) == search_from::<G>(start, i as nat),
        decreases actions.len() - i,
    {
        proof {
            G::candidate_is_reversible(start, i as int);
        }
        game_state.apply(&actions[i]);
        if solve(game_state) {
            return true;
        }
        game_state.revert(&actions[i]);
        i += 1;
    }
    false
}

} // verus!
