//! The two optimizers, and which half of the model each of them sees.
//!
//! Muon keeps one momentum buffer where AdamW keeps two moments, and
//! orthogonalises the update. It steps matrices only, and not those whose rows
//! are tokens: a step touches only the tokens in the batch, so orthogonalising
//! over the vocabulary would mix rows that were never seen. The rest stays on
//! AdamW.

use vstd::prelude::*;

use crate::text::{contains, occurs};

verus! {

/// One parameter tensor of a module.
#[derive(Debug, PartialEq, Eq)]
pub struct Param {
    /// Where it stands in the module.
    pub path: String,
    /// How many dimensions it has.
    pub dims: usize,
    pub id: Option<u64>,
}

/// One of the two optimizers.
#[derive(Debug, Clone, Copy, PartialEq, Eq, Structural)]
pub enum Optimizer {
    Muon,
    AdamW,
}

impl Optimizer {
    /// The name of the file that keeps its state.
    pub open spec fn file_name(self) -> Seq<char> {
        match self {
            Optimizer::AdamW => "optim.bpk"@,
            Optimizer::Muon => "muon.bpk"@,
        }
    }

    /// The file that keeps its state, inside a checkpoint.
    pub fn file(&self) -> (name: &'static str)
        ensures
            name@ == self.file_name(),
            name@ == match *self {
                Optimizer::AdamW => "optim.bpk"@,
                Optimizer::Muon => "muon.bpk"@,
            },
    {
        match self {
            Optimizer::AdamW => "optim.bpk",
            Optimizer::Muon => "muon.bpk",
        }
    }
}

/// A path that names a matrix whose rows are tokens.
pub open spec fn names_vocabulary(path: Seq<char>) -> bool {
    occurs(path, "embed"@) || occurs(path, "head"@)
}

/// Whether a parameter path names a matrix whose rows are tokens.
pub fn vocab(path: &str) -> (yes: bool)
    ensures
        yes == names_vocabulary(path@),
        yes <==> occurs(path@, "embed"@) || occurs(path@, "head"@),
{
    contains(path, "embed") || contains(path, "head")
}

/// Whether Muon may step a parameter: a matrix that is not the vocabulary.
pub open spec fn is_hidden(param: Param) -> bool {
    param.dims == 2 && !names_vocabulary(param.path@)
}

/// The ids of the parameters that Muon may step, in order.
pub open spec fn hidden_ids(params: Seq<Param>) -> Seq<u64>
    decreases params.len(),
{
    if params.len() == 0 {
        Seq::empty()
    } else {
        let before = hidden_ids(params.drop_last());
        match params.last().id {
            Some(id) => if is_hidden(params.last()) { before.push(id) } else { before },
            None => before,
        }
    }
}

/// The parameters Muon may step: the matrices that are not the vocabulary. That
/// is the projections of every mixer and feed-forward.
pub fn hidden(params: &Vec<Param>) -> (ids: Vec<u64>)
    ensures
        ids@ == hidden_ids(params@),
        ids@ == params@.filter_map(
            (|param: Param|
                if param.dims == 2 && !occurs(param.path@, "embed"@) && !occurs(
                    param.path@,
                    "head"@,
                ) {
                    param.id
                } else {
                    None
                }),
        ),
{
    let mut ids: Vec<u64> = Vec::new();
    let mut i: usize = 0;
    while i < params.len()
        invariant
            i <= params@.len(),
            ids@ == hidden_ids(params@.take(i as int)),
        decreases params@.len() - i,
    {
        let param = &params[i];
        assert(params@.take(i + 1).drop_last() =~= params@.take(i as int));
        if param.dims == 2 && !vocab(param.path.as_str()) {
            match param.id {
                Some(id) => ids.push(id),
                None => {},
            }
        }
        i = i + 1;
    }
    assert(params@.take(i as int) =~= params@);
    proof {
        muon_takes_the_hidden_matrices_in_order(params@);
    }
    ids
}

/// The gradients of one micro-batch, by parameter: those that Muon takes, if it
/// takes any, and the remainder.
#[derive(Debug, PartialEq, Eq)]
pub struct Shares {
    pub muon: Option<Vec<u64>>,
    pub adamw: Vec<u64>,
}

/// The entries of `ids` that are in `chosen` (or, with `inside` false, are not),
/// in order.
pub open spec fn picked(ids: Seq<u64>, chosen: Seq<u64>, inside: bool) -> Seq<u64>
    decreases ids.len(),
{
    if ids.len() == 0 {
        Seq::empty()
    } else {
        let before = picked(ids.drop_last(), chosen, inside);
        if chosen.contains(ids.last()) == inside {
            before.push(ids.last())
        } else {
            before
        }
    }
}

fn has(ids: &Vec<u64>, id: u64) -> (yes: bool)
    ensures
        yes == ids@.contains(id),
{
    let mut i: usize = 0;
    while i < ids.len()
        invariant
            i <= ids@.len(),
            forall|j: int| 0 <= j < i ==> ids@[j] != id,
        decreases ids@.len() - i,
    {
        if ids[i] == id {
            return true;
        }
        i = i + 1;
    }
    false
}

/// Which parameters each optimizer steps.
#[derive(Debug, PartialEq, Eq)]
pub struct Optim {
    /// The parameters Muon steps; empty when it is switched off, which is the
    /// only thing that distinguishes an AdamW-only run.
    hidden: Vec<u64>,
}

impl View for Optim {
    type V = Seq<u64>;

    /// The parameters Muon steps.
    closed spec fn view(&self) -> Seq<u64> {
        self.hidden@
    }
}

impl Optim {
    /// The split for a module with parameters `params`.
    pub fn new(muon: bool, params: &Vec<Param>) -> (optim: Self)
        ensures
            optim@ == if muon {
                hidden_ids(params@)
            } else {
                Seq::<u64>::empty()
            },
    {
        Self {
            hidden: if muon {
                hidden(params)
            } else {
                Vec::new()
            },
        }
    }

    /// Split one micro-batch's gradients, given by the ids of their parameters,
    /// between the two optimizers.
    pub fn accumulate(&self, grads: &Vec<u64>) -> (shares: Shares)
        ensures
            shares.muon is Some <==> self@.len() > 0,
            shares.muon matches Some(ids) ==> ids@ == picked(grads@, self@, true),
            shares.adamw@ == picked(grads@, self@, false),
            shares.muon matches Some(ids) ==> ids@ == grads@.filter(|id: u64| self@.contains(id)),
            shares.adamw@ == grads@.filter(|id: u64| !self@.contains(id)),
    {
        let mut taken: Vec<u64> = Vec::new();
        let mut rest: Vec<u64> = Vec::new();
        let mut i: usize = 0;
        while i < grads.len()
            invariant
                i <= grads@.len(),
                taken@ == picked(grads@.take(i as int), self@, true),
                rest@ == picked(grads@.take(i as int), self@, false),
            decreases grads@.len() - i,
        {
            assert(grads@.take(i + 1).drop_last() =~= grads@.take(i as int));
            if has(&self.hidden, grads[i]) {
                taken.push(grads[i]);
            } else {
                rest.push(grads[i]);
            }
            i = i + 1;
        }
        assert(grads@.take(i as int) =~= grads@);
        proof {
            the_shares_keep_their_order(grads@, self@);
        }
        Shares {
            muon: if self.hidden.len() > 0 {
                Some(taken)
            } else {
                None
            },
            adamw: rest,
        }
    }

    /// The optimizers to apply, in order, to everything accumulated since the
    /// last step.
    pub fn step(&self) -> (order: Vec<Optimizer>)
        ensures
            order@ == if self@.len() > 0 {
                seq![Optimizer::Muon, Optimizer::AdamW]
            } else {
                seq![Optimizer::AdamW]
            },
    {
        let mut order: Vec<Optimizer> = Vec::new();
        if self.hidden.len() > 0 {
            order.push(Optimizer::Muon);
        }
        order.push(Optimizer::AdamW);
        order
    }

    /// The optimizers whose state a checkpoint keeps, in the order in which it is
    /// written and read: both, whether or not Muon steps anything.
    pub fn kept(&self) -> (order: Vec<Optimizer>)
        ensures
            order@ == seq![Optimizer::AdamW, Optimizer::Muon],
    {
        let mut order: Vec<Optimizer> = Vec::new();
        order.push(Optimizer::AdamW);
        order.push(Optimizer::Muon);
        order
    }
}

// ── what the split promises ──────────────────────────────────────────────────

/// The split is a partition: a gradient reaches exactly one optimizer, and none
/// is lost or made up.
pub proof fn every_gradient_reaches_one_optimizer(grads: Seq<u64>, hidden: Seq<u64>, id: u64)
    ensures
        picked(grads, hidden, true).len() + picked(grads, hidden, false).len() == grads.len(),
        grads.contains(id) && hidden.contains(id) <==> picked(grads, hidden, true).contains(id),
        grads.contains(id) && !hidden.contains(id) <==> picked(grads, hidden, false).contains(id),
    decreases grads.len(),
{
    if grads.len() > 0 {
        let front = grads.drop_last();
        every_gradient_reaches_one_optimizer(front, hidden, id);
        lemma_contains_last(grads, id);
        let inside = hidden.contains(grads.last());
        let grown = picked(grads, hidden, inside);
        assert(grown.drop_last() =~= picked(front, hidden, inside));
        lemma_contains_last(grown, id);
    }
}

proof fn lemma_contains_last(ids: Seq<u64>, id: u64)
    requires
        ids.len() > 0,
    ensures
        ids.contains(id) <==> ids.drop_last().contains(id) || ids.last() == id,
{
    if ids.contains(id) {
        let i = choose|i: int| 0 <= i < ids.len() && ids[i] == id;
        if i < ids.len() - 1 {
            assert(ids.drop_last()[i] == id);
        }
    }
    if ids.drop_last().contains(id) {
        let i = choose|i: int| 0 <= i < ids.len() - 1 && ids.drop_last()[i] == id;
        assert(ids[i] == id);
    }
    if ids.last() == id {
        assert(ids[ids.len() - 1] == id);
    }
}

/// Each share is the gradients that belong to it, in the order they came in.
pub proof fn the_shares_keep_their_order(grads: Seq<u64>, hidden: Seq<u64>)
    ensures
        picked(grads, hidden, true) == grads.filter(|id: u64| hidden.contains(id)),
        picked(grads, hidden, false) == grads.filter(|id: u64| !hidden.contains(id)),
    decreases grads.len(),
{
    reveal(Seq::filter);
    if grads.len() > 0 {
        the_shares_keep_their_order(grads.drop_last(), hidden);
    } else {
        assert(picked(grads, hidden, true) =~= grads);
    }
}

/// What Muon takes are the ids, in order, of the parameters with two dimensions
/// whose path holds neither `embed` nor `head`.
pub proof fn muon_takes_the_hidden_matrices_in_order(params: Seq<Param>)
    ensures
        hidden_ids(params) == params.filter_map(
            (|param: Param|
                if param.dims == 2 && !occurs(param.path@, "embed"@) && !occurs(
                    param.path@,
                    "head"@,
                ) {
                    param.id
                } else {
                    None
                }),
        ),
    decreases params.len(),
{
    if params.len() > 0 {
        muon_takes_the_hidden_matrices_in_order(params.drop_last());
    }
}

/// Where ids are unique, the id of a parameter is taken exactly when the parameter
/// has two dimensions and its path holds neither `embed` nor `head`, whatever else
/// the path holds.
pub proof fn a_matrix_is_taken_unless_it_is_the_vocabulary(params: Seq<Param>, k: int)
    requires
        0 <= k < params.len(),
        params[k].id is Some,
        forall|i: int, j: int|
            0 <= i < j < params.len() && params[i].id is Some ==> #[trigger] params[i].id
                != #[trigger] params[j].id,
    ensures
        hidden_ids(params).contains(params[k].id->0) <==> {
            &&& params[k].dims == 2
            &&& !occurs(params[k].path@, "embed"@)
            &&& !occurs(params[k].path@, "head"@)
        },
{
    muon_takes_matrices_only(params, k);
}

/// Every id that is taken is that of a parameter with two dimensions whose path
/// holds neither `embed` nor `head`.
pub proof fn muon_takes_nothing_else(params: Seq<Param>, id: u64)
    requires
        hidden_ids(params).contains(id),
    ensures
        exists|k: int|
            {
                &&& 0 <= k < params.len()
                &&& (#[trigger] params[k]).id == Some(id)
                &&& params[k].dims == 2
                &&& !occurs(params[k].path@, "embed"@)
                &&& !occurs(params[k].path@, "head"@)
            },
    decreases params.len(),
{
    let front = params.drop_last();
    let ids = hidden_ids(params);
    let last = params[params.len() - 1];
    if is_hidden(last) && last.id is Some {
        assert(ids.drop_last() =~= hidden_ids(front));
        lemma_contains_last(ids, id);
    }
    if hidden_ids(front).contains(id) {
        muon_takes_nothing_else(front, id);
        let k = choose|k: int|
            {
                &&& 0 <= k < front.len()
                &&& (#[trigger] front[k]).id == Some(id)
                &&& front[k].dims == 2
                &&& !occurs(front[k].path@, "embed"@)
                &&& !occurs(front[k].path@, "head"@)
            };
        assert(params[k] == front[k]);
    }
}

/// With Muon switched off every gradient goes to AdamW, in order.
pub proof fn without_muon_adamw_takes_all(grads: Seq<u64>)
    ensures
        picked(grads, Seq::empty(), false) == grads,
    decreases grads.len(),
{
    if grads.len() > 0 {
        without_muon_adamw_takes_all(grads.drop_last());
        assert(!Seq::<u64>::empty().contains(grads.last()));
        assert(picked(grads, Seq::empty(), false) =~= grads);
    }
}

/// Muon takes the matrices and leaves the vocabulary: where ids are unique, the
/// id of a parameter is taken exactly when the parameter is a matrix that is not
/// the vocabulary.
pub proof fn muon_takes_matrices_only(params: Seq<Param>, k: int)
    requires
        0 <= k < params.len(),
        params[k].id is Some,
        forall|i: int, j: int|
            0 <= i < j < params.len() && params[i].id is Some ==> #[trigger] params[i].id
                != #[trigger] params[j].id,
    ensures
        hidden_ids(params).contains(params[k].id->0) <==> is_hidden(params[k]),
    decreases params.len(),
{
    let id = params[k].id->0;
    let front = params.drop_last();
    let before = hidden_ids(front);
    let ids = hidden_ids(params);
    if is_hidden(params.last()) && params.last().id is Some {
        assert(ids.drop_last() =~= before);
        lemma_contains_last(ids, id);
    }
    if k < params.len() - 1 {
        assert(front[k] == params[k]);
        assert forall|i: int, j: int|
            0 <= i < j < front.len() && front[i].id is Some implies #[trigger] front[i].id
            != #[trigger] front[j].id by {
            assert(params[i].id != params[j].id);
        }
        muon_takes_matrices_only(front, k);
        assert(params[k].id != params[params.len() - 1].id);
    } else {
        lemma_ids_come_from_params(front, id);
        if before.contains(id) {
            let i = choose|i: int| 0 <= i < front.len() && (#[trigger] front[i]).id == Some(id);
            assert(params[i].id != params[k].id);
        }
    }
}

/// A taken id is the id of some parameter.
proof fn lemma_ids_come_from_params(params: Seq<Param>, id: u64)
    ensures
        hidden_ids(params).contains(id) ==> exists|i: int|
            0 <= i < params.len() && (#[trigger] params[i]).id == Some(id),
    decreases params.len(),
{
    if params.len() > 0 && hidden_ids(params).contains(id) {
        let front = params.drop_last();
        lemma_ids_come_from_params(front, id);
        let ids = hidden_ids(params);
        let last = params[params.len() - 1];
        if is_hidden(last) && last.id is Some {
            assert(ids.drop_last() =~= hidden_ids(front));
            lemma_contains_last(ids, id);
        }
        if hidden_ids(front).contains(id) {
            let i = choose|i: int| 0 <= i < front.len() && (#[trigger] front[i]).id == Some(id);
            assert(params[i].id == Some(id));
        }
    }
}

} // verus!
