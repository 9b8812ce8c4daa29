//! The decisions of greedy generation.
//!
//! Generation appends one token per step to a prompt. The token itself comes
//! from the model (a floating-point forward pass followed by
//! [`crate::sampling::argmax`]); what this module decides is whether another
//! step follows. A run stops after a step when the step budget is used up,
//! when the token just appended is the end-of-sequence token, or when the
//! sequence has reached the model's context length.

use vstd::prelude::*;

verus! {

/// Whether the run stops right after appending `added[i]` (the `i`-th new
/// token, counted from 0) to a prompt of `prompt_len` tokens.
pub open spec fn stops_after(
    prompt_len: nat,
    added: Seq<usize>,
    i: int,
    max_new_tokens: nat,
    eos_token: Option<usize>,
    n_positions: nat,
) -> bool {
    ||| i + 1 >= max_new_tokens
    ||| eos_token == Some(added[i])
    ||| prompt_len + i + 1 >= n_positions
}

/// `added` is what a run appends before it has stopped, or until the step at
/// which it stops: no step before the last one ended the run.
pub open spec fn runs_through(
    prompt_len: nat,
    added: Seq<usize>,
    max_new_tokens: nat,
    eos_token: Option<usize>,
    n_positions: nat,
) -> bool {
    &&& added.len() <= max_new_tokens
    &&& forall|i: int|
        0 <= i < added.len() - 1 ==> !#[trigger] stops_after(
            prompt_len,
            added,
            i,
            max_new_tokens,
            eos_token,
            n_positions,
        )
}

/// Whether a run that has appended `added` is over.
pub open spec fn run_is_over(
    prompt_len: nat,
    added: Seq<usize>,
    max_new_tokens: nat,
    eos_token: Option<usize>,
    n_positions: nat,
) -> bool {
    ||| max_new_tokens == 0
    ||| (added.len() > 0 && stops_after(
        prompt_len,
        added,
        added.len() - 1,
        max_new_tokens,
        eos_token,
        n_positions,
    ))
}

/// The greedy generation loop on its own: starting from `tokens`, take up to
/// `budget` steps, each appending `pick(tokens so far)`, and stop after a step
/// that appended `eos_token` or that brought the sequence to `n_positions`
/// tokens.
pub open spec fn greedy_continue(
    tokens: Seq<usize>,
    budget: nat,
    pick: spec_fn(Seq<usize>) -> usize,
    eos_token: Option<usize>,
    n_positions: nat,
) -> Seq<usize>
    decreases budget,
{
    if budget == 0 {
        tokens
    } else {
        let next = pick(tokens);
        let longer = tokens.push(next);
        if eos_token == Some(next) || longer.len() >= n_positions {
            longer
        } else {
            greedy_continue(longer, (budget - 1) as nat, pick, eos_token, n_positions)
        }
    }
}

/// The state of a greedy generation run: the tokens so far and the limits
/// that end it.
pub struct Generation {
    tokens: Vec<usize>,
    prompt_len: usize,
    max_new_tokens: usize,
    eos_token: Option<usize>,
    n_positions: usize,
    finished: bool,
}

impl Generation {
    /// All tokens: the prompt followed by the tokens appended so far.
    pub closed spec fn all_tokens(&self) -> Seq<usize> {
        self.tokens@
    }

    /// The prompt the run started from.
    pub closed spec fn prompt(&self) -> Seq<usize> {
        self.tokens@.take(self.prompt_len as int)
    }

    /// The tokens appended to the prompt so far.
    pub closed spec fn generated(&self) -> Seq<usize> {
        self.tokens@.skip(self.prompt_len as int)
    }

    /// The step budget.
    pub closed spec fn max_new(&self) -> nat {
        self.max_new_tokens as nat
    }

    /// The end-of-sequence token, if any.
    pub closed spec fn eos(&self) -> Option<usize> {
        self.eos_token
    }

    /// The context length of the model.
    pub closed spec fn context_len(&self) -> nat {
        self.n_positions as nat
    }

    /// Whether the run is over.
    pub closed spec fn over(&self) -> bool {
        self.finished
    }

    /// The state invariant: the appended tokens are a run that no earlier step
    /// ended, and the run is over exactly when its last step ended it.
    pub closed spec fn wf(&self) -> bool {
        &&& self.prompt_len <= self.tokens@.len()
        &&& runs_through(
            self.prompt_len as nat,
            self.generated(),
            self.max_new(),
            self.eos_token,
            self.context_len(),
        )
        &&& self.finished == run_is_over(
            self.prompt_len as nat,
            self.generated(),
            self.max_new(),
            self.eos_token,
            self.context_len(),
        )
    }

    /// Starts a run from `tokens`, allowing at most `max_new_tokens` steps.
    pub fn new(
        tokens: Vec<usize>,
        max_new_tokens: usize,
        eos_token: Option<usize>,
        n_positions: usize,
    ) -> (g: Generation)
        ensures
            g.wf(),
            g.prompt() == tokens@,
            g.all_tokens() == tokens@,
            g.generated() == Seq::<usize>::empty(),
            g.max_new() == max_new_tokens,
            g.eos() == eos_token,
            g.context_len() == n_positions,
            g.over() == (max_new_tokens == 0),
    {
        let prompt_len = tokens.len();
        let g = Generation {
            tokens,
            prompt_len,
            max_new_tokens,
            eos_token,
            n_positions,
            finished: max_new_tokens == 0,
        };
        assert(g.tokens@.take(prompt_len as int) =~= g.tokens@);
        assert(g.generated() =~= Seq::<usize>::empty());
        g
    }

    /// Whether the run is over.
    pub fn is_finished(&self) -> (b: bool)
        ensures
            b == self.over(),
    {
        self.finished
    }

    /// The tokens so far, which the model reads to choose the next one.
    pub fn tokens(&self) -> (t: &[usize])
        ensures
            t@ == self.all_tokens(),
    {
        self.tokens.as_slice()
    }

    /// Appends the token the model chose and decides whether the run goes on.
    pub fn accept(&mut self, next: usize)
        requires
            old(self).wf(),
            !old(self).over(),
        ensures
            final(self).wf(),
            final(self).all_tokens() == old(self).all_tokens().push(next),
            final(self).prompt() == old(self).prompt(),
            final(self).generated() == old(self).generated().push(next),
            final(self).max_new() == old(self).max_new(),
            final(self).eos() == old(self).eos(),
            final(self).context_len() == old(self).context_len(),
            final(self).over() == stops_after(
                old(self).prompt().len(),
                old(self).generated().push(next),
                old(self).generated().len() as int,
                old(self).max_new(),
                old(self).eos(),
                old(self).context_len(),
            ),
    {
        let ghost old_tokens = self.tokens@;
        let ghost added = old_tokens.skip(self.prompt_len as int);
        let produced = self.tokens.len() - self.prompt_len;
        assert(produced == added.len());
        // The run is not over, so fewer than `max_new_tokens` steps were taken.
        assert(produced < self.max_new_tokens) by {
            if produced >= self.max_new_tokens && produced > 0 {
                assert(stops_after(
                    self.prompt_len as nat,
                    added,
                    added.len() - 1,
                    self.max_new(),
                    self.eos_token,
                    self.context_len(),
                ));
            }
        }
        // After the push the sequence holds `tokens.len() + 1` tokens.
        let reaches_context = self.n_positions == 0 || self.tokens.len() >= self.n_positions - 1;
        let hit_eos = match self.eos_token {
            Some(e) => e == next,
            None => false,
        };
        let done = produced + 1 >= self.max_new_tokens || hit_eos || reaches_context;
        self.tokens.push(next);
        self.finished = done;
        proof {
            let new_added = self.tokens@.skip(self.prompt_len as int);
            assert(new_added =~= added.push(next));
            assert(self.tokens@.take(self.prompt_len as int) =~= old_tokens.take(
                self.prompt_len as int,
            ));
            assert forall|i: int| 0 <= i < new_added.len() - 1 implies !#[trigger] stops_after(
                self.prompt_len as nat,
                new_added,
                i,
                self.max_new(),
                self.eos_token,
                self.context_len(),
            ) by {
                assert(new_added[i] == added[i]);
                if i < added.len() - 1 {
                    assert(!stops_after(
                        self.prompt_len as nat,
                        added,
                        i,
                        self.max_new(),
                        self.eos_token,
                        self.context_len(),
                    ));
                }
            }
        }
    }

    /// The finished sequence: the prompt followed by the generated tokens.
    pub fn into_tokens(self) -> (t: Vec<usize>)
        ensures
            t@ == self.all_tokens(),
    {
        self.tokens
    }
}

/// The prompt stays in front: every state of a run is the prompt followed by
/// the tokens generated so far.
pub proof fn lemma_prompt_is_kept(g: &Generation)
    requires
        g.wf(),
    ensures
        g.all_tokens() == g.prompt() + g.generated(),
        g.all_tokens().take(g.prompt().len() as int) == g.prompt(),
{
    assert(g.tokens@ =~= g.tokens@.take(g.prompt_len as int) + g.tokens@.skip(g.prompt_len as int));
}

/// Each generated token was `pick` applied to the tokens before it.
pub open spec fn follows_picks(g: &Generation, pick: spec_fn(Seq<usize>) -> usize) -> bool {
    forall|i: int|
        0 <= i < g.generated().len() ==> #[trigger] g.generated()[i] == pick(
            g.prompt() + g.generated().take(i),
        )
}

proof fn lemma_run_suffix(g: &Generation, pick: spec_fn(Seq<usize>) -> usize, j: int)
    requires
        g.wf(),
        g.over(),
        follows_picks(g, pick),
        0 <= j < g.generated().len(),
    ensures
        greedy_continue(
            g.prompt() + g.generated().take(j),
            (g.max_new() - j) as nat,
            pick,
            g.eos(),
            g.context_len(),
        ) == g.all_tokens(),
    decreases g.generated().len() - j,
{
    let gen = g.generated();
    let prefix = g.prompt() + gen.take(j);
    let longer = prefix.push(gen[j]);
    lemma_prompt_is_kept(g);
    assert(longer =~= g.prompt() + gen.take(j + 1));
    assert(g.prompt().len() == g.prompt_len);
    if j == gen.len() - 1 {
        assert(gen.take(j + 1) =~= gen);
        assert(stops_after(
            g.prompt_len as nat,
            gen,
            j,
            g.max_new(),
            g.eos_token,
            g.context_len(),
        ));
        if g.max_new() - j - 1 == 0 {
            assert(greedy_continue(longer, 0, pick, g.eos(), g.context_len()) == longer);
        }
    } else {
        assert(!stops_after(
            g.prompt_len as nat,
            gen,
            j,
            g.max_new(),
            g.eos_token,
            g.context_len(),
        ));
        lemma_run_suffix(g, pick, j + 1);
    }
}

/// Driving a run with the tokens that a model `pick` chooses gives what the
/// greedy loop gives: once the run is over, its tokens are
/// `greedy_continue(prompt, max_new_tokens, pick, eos_token, n_positions)`.
pub proof fn lemma_run_is_greedy_loop(g: &Generation, pick: spec_fn(Seq<usize>) -> usize)
    requires
        g.wf(),
        g.over(),
        follows_picks(g, pick),
    ensures
        g.all_tokens() == greedy_continue(g.prompt(), g.max_new(), pick, g.eos(), g.context_len()),
{
    lemma_prompt_is_kept(g);
    if g.generated().len() == 0 {
        assert(g.prompt() + g.generated() =~= g.prompt());
    } else {
        lemma_run_suffix(g, pick, 0);
        assert(g.prompt() + g.generated().take(0) =~= g.prompt());
    }
}

/// A run that is over ended for one of its three reasons: it had no budget,
/// or it used up the budget, or its last token is the end-of-sequence token,
/// or the sequence reached the context length.
pub proof fn lemma_run_ends_only_for_a_reason(g: &Generation)
    requires
        g.wf(),
        g.over(),
    ensures
        g.max_new() == 0 || g.generated().len() == g.max_new() || (g.generated().len() > 0 && (
        g.eos() == Some(g.generated()[g.generated().len() - 1]) || g.all_tokens().len()
            >= g.context_len())),
{
    lemma_prompt_is_kept(g);
}

/// A run that is not over has none of the reasons to end: budget is left,
/// and the last token appended is not the end-of-sequence token and left the
/// sequence shorter than the context length.
pub proof fn lemma_run_goes_on_without_a_reason(g: &Generation)
    requires
        g.wf(),
        !g.over(),
    ensures
        g.generated().len() < g.max_new(),
        g.generated().len() > 0 ==> g.eos() != Some(g.generated()[g.generated().len() - 1])
            && g.all_tokens().len() < g.context_len(),
{
    lemma_prompt_is_kept(g);
}

/// What the greedy loop gives: the tokens it started from, followed by one
/// picked token per step, each `pick` of the tokens before it; at most
/// `budget` of them, at least one when there is budget; every step but the
/// last neither appended the end-of-sequence token nor reached `n_positions`
/// tokens, and the last step used up the budget, appended that token, or
/// reached that length.
pub proof fn lemma_greedy_continue_shape(
    tokens: Seq<usize>,
    budget: nat,
    pick: spec_fn(Seq<usize>) -> usize,
    eos_token: Option<usize>,
    n_positions: nat,
)
    ensures
        greedy_continue(tokens, budget, pick, eos_token, n_positions).len() <= tokens.len()
            + budget,
        greedy_continue(tokens, budget, pick, eos_token, n_positions).take(tokens.len() as int)
            == tokens,
        budget == 0 ==> greedy_continue(tokens, budget, pick, eos_token, n_positions) == tokens,
        budget > 0 ==> greedy_continue(tokens, budget, pick, eos_token, n_positions).len()
            > tokens.len(),
        budget > 0 ==> ({
            let r = greedy_continue(tokens, budget, pick, eos_token, n_positions);
            r.len() == tokens.len() + budget || eos_token == Some(r[r.len() - 1]) || r.len()
                >= n_positions
        }),
        forall|m: int|
            #![trigger greedy_continue(tokens, budget, pick, eos_token, n_positions)[m]]
            tokens.len() <= m < greedy_continue(tokens, budget, pick, eos_token, n_positions).len()
                ==> greedy_continue(tokens, budget, pick, eos_token, n_positions)[m] == pick(
                greedy_continue(tokens, budget, pick, eos_token, n_positions).take(m),
            ),
        forall|m: int|
            #![trigger greedy_continue(tokens, budget, pick, eos_token, n_positions)[m]]
            tokens.len() <= m < greedy_continue(tokens, budget, pick, eos_token, n_positions).len()
                - 1 ==> eos_token != Some(
                greedy_continue(tokens, budget, pick, eos_token, n_positions)[m],
            ) && m + 1 < n_positions,
    decreases budget,
{
    let r = greedy_continue(tokens, budget, pick, eos_token, n_positions);
    if budget == 0 {
        assert(r.take(tokens.len() as int) =~= tokens);
    } else {
        let next = pick(tokens);
        let longer = tokens.push(next);
        if eos_token == Some(next) || longer.len() >= n_positions {
            assert(r == longer);
            assert(longer.take(tokens.len() as int) =~= tokens);
            assert forall|m: int| tokens.len() <= m < r.len() implies #[trigger] r[m] == pick(
                r.take(m),
            ) by {
                assert(m == tokens.len());
                assert(r.take(m) =~= tokens);
            }
        } else {
            let rest = (budget - 1) as nat;
            lemma_greedy_continue_shape(longer, rest, pick, eos_token, n_positions);
            assert(r == greedy_continue(longer, rest, pick, eos_token, n_positions));
            assert(r.take(longer.len() as int) == longer);
            assert(r[tokens.len() as int] == longer[tokens.len() as int]);
            assert(r.take(tokens.len() as int) =~= longer.take(tokens.len() as int));
            assert(longer.take(tokens.len() as int) =~= tokens);
            assert forall|m: int| tokens.len() <= m < r.len() implies #[trigger] r[m] == pick(
                r.take(m),
            ) by {
                if m == tokens.len() {
                    assert(r.take(m) =~= tokens);
                }
            }
            assert forall|m: int| tokens.len() <= m < r.len() - 1 implies eos_token != Some(
                #[trigger] r[m],
            ) && m + 1 < n_positions by {
                if m == tokens.len() {
                    assert(r[m] == next);
                }
            }
        }
    }
}

/// A run appends at most `max_new_tokens` tokens, none at all when that budget
/// is zero, and it is over once the budget is used up; while it is not over,
/// another step fits in the budget. A run that is over either had no budget or
/// was ended by its last step, so with a positive budget it appended at least
/// one token.
pub proof fn lemma_step_budget(g: &Generation)
    requires
        g.wf(),
    ensures
        g.generated().len() <= g.max_new(),
        g.max_new() == 0 ==> g.over() && g.generated().len() == 0,
        g.generated().len() == g.max_new() ==> g.over(),
        !g.over() ==> g.generated().len() < g.max_new(),
        g.over() == run_is_over(
            g.prompt().len(),
            g.generated(),
            g.max_new(),
            g.eos(),
            g.context_len(),
        ),
        g.over() && g.max_new() > 0 ==> g.generated().len() > 0,
{
}

/// The end-of-sequence token ends a run: it never appears among the generated
/// tokens except as the last one, and a run whose last token is it is over.
pub proof fn lemma_stops_at_eos(g: &Generation)
    requires
        g.wf(),
    ensures
        forall|i: int|
            0 <= i < g.generated().len() - 1 ==> g.eos() != Some(#[trigger] g.generated()[i]),
        g.generated().len() > 0 && g.eos() == Some(g.generated().last()) ==> g.over(),
{
    assert forall|i: int|
        0 <= i < g.generated().len() - 1 implies g.eos() != Some(#[trigger] g.generated()[i]) by {
        assert(!stops_after(
            g.prompt_len as nat,
            g.generated(),
            i,
            g.max_new(),
            g.eos_token,
            g.context_len(),
        ));
    }
}

/// A run does not outgrow the model's context: every step but the last one
/// leaves the sequence shorter than `n_positions`, so the sequence is at most
/// `n_positions` long unless a single step was taken; a run that reaches the
/// context length is over.
pub proof fn lemma_context_bound(g: &Generation)
    requires
        g.wf(),
    ensures
        forall|i: int|
            #![trigger g.generated()[i]]
            0 <= i < g.generated().len() - 1 ==> g.prompt().len() + i + 1 < g.context_len(),
        g.generated().len() <= 1 || g.all_tokens().len() <= g.context_len(),
        g.generated().len() > 0 && g.all_tokens().len() >= g.context_len() ==> g.over(),
{
    assert forall|i: int|
        #![trigger g.generated()[i]]
        0 <= i < g.generated().len() - 1 implies g.prompt().len() + i + 1 < g.context_len() by {
        assert(!stops_after(
            g.prompt_len as nat,
            g.generated(),
            i,
            g.max_new(),
            g.eos_token,
            g.context_len(),
        ));
    }
    if g.generated().len() > 1 {
        let i = g.generated().len() - 2;
        assert(!stops_after(
            g.prompt_len as nat,
            g.generated(),
            i,
            g.max_new(),
            g.eos_token,
            g.context_len(),
        ));
    }
}

} // verus!
