use vstd::prelude::*;
use vstd::seq_lib::lemma_flatten_concat;
use vstd::string::StringExecFns;
use vstd::string::StrSliceExecFns;

verus! {

/// Which side of the free-form content survives when the prompt must be shortened.
#[derive(Clone, Copy, Debug, PartialEq, Eq, Structural)]
pub enum OverflowKeep {
    /// Keep the trailing units, dropping from the front.
    Start,
    /// Keep the leading units, dropping from the back.
    End,
}

/// The reserve used when the caller names none.
pub const DEFAULT_RESERVE_OUTPUT_CONTEXT: usize = 256;

#[derive(Clone, Debug, PartialEq, Eq)]
pub enum BudgetError {
    /// Even with all free-form content dropped the prompt does not fit.
    ContextLimitExceeded { required: usize, available: usize },
}

/// The number of tokens that a text counts for: one per character. This is
/// deterministic, and more text never counts for fewer tokens. It never counts
/// fewer tokens than a subword tokenizer, which splits no character further;
/// on English prose such tokenizers average about four characters per token,
/// so this count runs about four times too high there, and the budget is kept
/// with room to spare.
pub open spec fn token_count(s: Seq<char>) -> nat {
    s.len()
}

/// Tokens left for the prompt once the output reserve is set aside.
pub open spec fn available_tokens(limit: nat, reserve: nat) -> nat {
    if reserve <= limit {
        (limit - reserve) as nat
    } else {
        0
    }
}

pub open spec fn units_view(units: Seq<String>) -> Seq<Seq<char>> {
    units.map_values(|u: String| u@)
}

/// The `k` units that survive under the given policy.
pub open spec fn kept_units(units: Seq<Seq<char>>, keep: OverflowKeep, k: nat) -> Seq<Seq<char>> {
    match keep {
        OverflowKeep::End => units.take(k as int),
        OverflowKeep::Start => units.skip(units.len() - k),
    }
}

/// The prompt made of the fixed head, the given free-form units, and the fixed tail.
pub open spec fn render(head: Seq<char>, units: Seq<Seq<char>>, tail: Seq<char>) -> Seq<char> {
    head + units.flatten() + tail
}

pub open spec fn fits(
    head: Seq<char>,
    units: Seq<Seq<char>>,
    tail: Seq<char>,
    keep: OverflowKeep,
    k: nat,
    budget: nat,
) -> bool {
    token_count(render(head, kept_units(units, keep, k), tail)) <= budget
}

/// The largest number of units, at most `k`, that fits the budget (0 if none does).
pub open spec fn kept_count(
    head: Seq<char>,
    units: Seq<Seq<char>>,
    tail: Seq<char>,
    keep: OverflowKeep,
    budget: nat,
    k: nat,
) -> nat
    decreases k,
{
    if k == 0 || fits(head, units, tail, keep, k, budget) {
        k
    } else {
        kept_count(head, units, tail, keep, budget, (k - 1) as nat)
    }
}

/// The index of the unit that is kept next when `k` units are already kept.
pub open spec fn next_index(n: nat, keep: OverflowKeep, k: nat) -> int {
    match keep {
        OverflowKeep::End => k as int,
        OverflowKeep::Start => n - 1 - k,
    }
}

proof fn lemma_kept_step(units: Seq<Seq<char>>, keep: OverflowKeep, k: nat)
    requires
        k < units.len(),
    ensures
        kept_units(units, keep, k + 1).flatten().len() == kept_units(units, keep, k).flatten().len()
            + units[next_index(units.len(), keep, k)].len(),
{
    let n = units.len();
    match keep {
        OverflowKeep::End => {
            assert(units.take(k + 1 as int) =~= units.take(k as int).push(units[k as int]));
            units.take(k as int).lemma_flatten_push(units[k as int]);
        },
        OverflowKeep::Start => {
            let i = n - 1 - k;
            assert(units.skip(i) =~= seq![units[i]] + units.skip(i + 1));
            lemma_flatten_concat(seq![units[i]], units.skip(i + 1));
            seq![units[i]].lemma_flatten_singleton();
        },
    }
}

proof fn lemma_kept_monotone(units: Seq<Seq<char>>, keep: OverflowKeep, m: nat, j: nat)
    requires
        m <= j <= units.len(),
    ensures
        kept_units(units, keep, m).flatten().len() <= kept_units(units, keep, j).flatten().len(),
    decreases j - m,
{
    if m < j {
        lemma_kept_step(units, keep, m);
        lemma_kept_monotone(units, keep, m + 1, j);
    }
}

/// `kept_count` is the `k` that fits while `k + 1` does not.
proof fn lemma_kept_count_is(
    head: Seq<char>,
    units: Seq<Seq<char>>,
    tail: Seq<char>,
    keep: OverflowKeep,
    budget: nat,
    k: nat,
    j: nat,
)
    requires
        k <= j <= units.len(),
        fits(head, units, tail, keep, k, budget),
        k == units.len() || !fits(head, units, tail, keep, k + 1, budget),
    ensures
        kept_count(head, units, tail, keep, budget, j) == k,
    decreases j,
{
    if j > k {
        lemma_kept_monotone(units, keep, k + 1, j);
        assert(!fits(head, units, tail, keep, j, budget));
        lemma_kept_count_is(head, units, tail, keep, budget, k, (j - 1) as nat);
    }
}

proof fn lemma_kept_count_bounds(
    head: Seq<char>,
    units: Seq<Seq<char>>,
    tail: Seq<char>,
    keep: OverflowKeep,
    budget: nat,
    j: nat,
)
    requires
        fits(head, units, tail, keep, 0, budget),
    ensures
        kept_count(head, units, tail, keep, budget, j) <= j,
        fits(head, units, tail, keep, kept_count(head, units, tail, keep, budget, j), budget),
    decreases j,
{
    if j > 0 && !fits(head, units, tail, keep, j, budget) {
        lemma_kept_count_bounds(head, units, tail, keep, budget, (j - 1) as nat);
    }
}

/// A prompt that already fits the budget comes back unchanged.
pub proof fn lemma_budget_no_op(
    head: Seq<char>,
    units: Seq<Seq<char>>,
    tail: Seq<char>,
    keep: OverflowKeep,
    budget: nat,
)
    requires
        token_count(render(head, units, tail)) <= budget,
    ensures
        render(head, kept_units(units, keep, kept_count(head, units, tail, keep, budget, units.len())), tail)
            == render(head, units, tail),
{
    assert(units.take(units.len() as int) =~= units);
    assert(units.skip(0) =~= units);
}

/// When the prompt must be shortened, the result fits the budget, and its free-form
/// content is a prefix of the given free-form content when the leading part is
/// kept, and a suffix of it when the trailing part is kept.
pub proof fn lemma_budget_overflow(
    head: Seq<char>,
    units: Seq<Seq<char>>,
    tail: Seq<char>,
    keep: OverflowKeep,
    budget: nat,
)
    requires
        fits(head, units, tail, keep, 0, budget),
    ensures
        ({
            let k = kept_count(head, units, tail, keep, budget, units.len());
            let kept = kept_units(units, keep, k).flatten();
            &&& token_count(render(head, kept_units(units, keep, k), tail)) <= budget
            &&& keep == OverflowKeep::End ==> kept.is_prefix_of(units.flatten())
            &&& keep == OverflowKeep::Start ==> kept.is_suffix_of(units.flatten())
        }),
{
    let n = units.len();
    lemma_kept_count_bounds(head, units, tail, keep, budget, n);
    let k = kept_count(head, units, tail, keep, budget, n);
    match keep {
        OverflowKeep::End => {
            assert(units =~= units.take(k as int) + units.skip(k as int));
            lemma_flatten_concat(units.take(k as int), units.skip(k as int));
        },
        OverflowKeep::Start => {
            assert(units =~= units.take(n - k) + units.skip(n - k));
            lemma_flatten_concat(units.take(n - k), units.skip(n - k));
        },
    }
}

/// `units` are the lines of a text with their line ends kept: none is empty, each
/// holds a `\n` only as its last character, and all but the last end with one.
pub open spec fn is_line_units(units: Seq<Seq<char>>) -> bool {
    forall|i: int|
        0 <= i < units.len() ==> {
            &&& #[trigger] units[i].len() > 0
            &&& forall|j: int| 0 <= j < units[i].len() - 1 ==> units[i][j] != '\n'
            &&& i < units.len() - 1 ==> units[i].last() == '\n'
        }
}

/// Splits free-form text into the units that truncation drops whole: its lines,
/// each with its line end.
pub fn split_units(text: &str) -> (r: Vec<String>)
    ensures
        units_view(r@).flatten() == text@,
        is_line_units(units_view(r@)),
{
    let n = text.unicode_len();
    let mut units: Vec<String> = Vec::new();
    let mut start: usize = 0;
    let mut i: usize = 0;
    proof {
        assert(units_view(units@) =~= Seq::<Seq<char>>::empty());
        assert(text@.take(0) =~= Seq::<char>::empty());
    }
    while i < n
        invariant
            n == text@.len(),
            start <= i <= n,
            units_view(units@).flatten() == text@.take(start as int),
            is_line_units(units_view(units@)),
            units@.len() > 0 ==> units_view(units@).last().last() == '\n',
            forall|j: int| start <= j < i ==> text@[j] != '\n',
        decreases n - i,
    {
        let c = text.get_char(i);
        if c == '\n' {
            let unit = String::from_str(text.substring_char(start, i + 1));
            let ghost before = units_view(units@);
            proof {
                assert(text@.take(i + 1) =~= text@.take(start as int) + unit@);
                before.lemma_flatten_push(unit@);
                assert(unit@.last() == '\n');
            }
            units.push(unit);
            proof {
                assert(units_view(units@) =~= before.push(unit@));
            }
            start = i + 1;
        }
        i = i + 1;
    }
    if start < n {
        let unit = String::from_str(text.substring_char(start, n));
        let ghost before = units_view(units@);
        proof {
            assert(text@ =~= text@.take(start as int) + unit@);
            before.lemma_flatten_push(unit@);
        }
        units.push(unit);
        proof {
            assert(units_view(units@) =~= before.push(unit@));
        }
    } else {
        proof {
            assert(text@.take(start as int) =~= text@);
        }
    }
    units
}

/// What to do after measuring a prompt rendered with some number of free-form units kept.
#[derive(Clone, Copy, Debug, PartialEq, Eq, Structural)]
pub enum BudgetStep {
    /// The prompt fits: use it.
    Accept,
    /// Render again keeping this many units.
    Shrink(usize),
    /// No unit is left to drop and the prompt still does not fit.
    Exceeded { required: usize, available: usize },
}

/// The token count of a text.
pub fn count_tokens(text: &str) -> (r: usize)
    ensures
        r == token_count(text@),
{
    text.unicode_len()
}

/// One round of render, measure, truncate: given how many free-form units the
/// rendered prompt kept, accept it if it fits, else drop one more unit, else
/// fail when none is left.
pub fn budget_step(kept: usize, rendered: &str, context_limit: usize, reserve: usize) -> (r:
    BudgetStep)
    ensures
        ({
            let budget = available_tokens(context_limit as nat, reserve as nat);
            &&& r == BudgetStep::Accept <==> token_count(rendered@) <= budget
            &&& token_count(rendered@) > budget && kept > 0 ==> r == BudgetStep::Shrink(
                (kept - 1) as usize,
            )
            &&& token_count(rendered@) > budget && kept == 0 ==> r == (BudgetStep::Exceeded {
                required: token_count(rendered@) as usize,
                available: budget as usize,
            })
        }),
{
    let budget: usize = if reserve <= context_limit {
        context_limit - reserve
    } else {
        0
    };
    let tokens = count_tokens(rendered);
    if tokens <= budget {
        BudgetStep::Accept
    } else if kept > 0 {
        BudgetStep::Shrink(kept - 1)
    } else {
        BudgetStep::Exceeded { required: tokens, available: budget }
    }
}

/// The free-form text made of the `k` units that `keep` holds on to: a prefix of
/// the whole text when the leading part is kept, a suffix when the trailing part is.
pub fn kept_text(units: &Vec<String>, keep: OverflowKeep, k: usize) -> (r: String)
    requires
        k <= units@.len(),
    ensures
        r@ == kept_units(units_view(units@), keep, k as nat).flatten(),
        keep == OverflowKeep::End ==> r@.is_prefix_of(units_view(units@).flatten()),
        keep == OverflowKeep::Start ==> r@.is_suffix_of(units_view(units@).flatten()),
{
    let ghost uv = units_view(units@);
    let len = units.len();
    let start: usize = match keep {
        OverflowKeep::End => 0,
        OverflowKeep::Start => len - k,
    };
    let end: usize = start + k;
    let mut out = String::new();
    let mut j: usize = start;
    proof {
        assert(uv.subrange(start as int, start as int) =~= Seq::<Seq<char>>::empty());
    }
    while j < end
        invariant
            start <= j <= end <= len,
            len == units@.len(),
            uv == units_view(units@),
            out@ == uv.subrange(start as int, j as int).flatten(),
        decreases end - j,
    {
        proof {
            assert(uv.subrange(start as int, j + 1) =~= uv.subrange(start as int, j as int).push(
                uv[j as int],
            ));
            uv.subrange(start as int, j as int).lemma_flatten_push(uv[j as int]);
        }
        out.append(units[j].as_str());
        j = j + 1;
    }
    proof {
        let n = uv.len();
        assert(uv.subrange(start as int, end as int) =~= kept_units(uv, keep, k as nat));
        match keep {
            OverflowKeep::End => {
                assert(uv =~= uv.take(k as int) + uv.skip(k as int));
                lemma_flatten_concat(uv.take(k as int), uv.skip(k as int));
            },
            OverflowKeep::Start => {
                assert(uv =~= uv.take(n - k) + uv.skip(n - k));
                lemma_flatten_concat(uv.take(n - k), uv.skip(n - k));
            },
        }
    }
    out
}

/// The reserve for output tokens: the caller's, or the default.
pub fn effective_reserve(reserve_output_context: Option<usize>) -> (r: usize)
    ensures
        r == match reserve_output_context {
            Some(v) => v,
            None => DEFAULT_RESERVE_OUTPUT_CONTEXT,
        },
{
    match reserve_output_context {
        Some(v) => v,
        None => DEFAULT_RESERVE_OUTPUT_CONTEXT,
    }
}

/// The context ceiling: the caller's limit when given, else the model's own window.
pub fn effective_context_limit(context_limit: Option<usize>, model_limit: usize) -> (r: usize)
    ensures
        r == match context_limit {
            Some(v) => v,
            None => model_limit,
        },
{
    match context_limit {
        Some(v) => v,
        None => model_limit,
    }
}

/// Fits the prompt `head + units + tail` into `context_limit - reserve` tokens,
/// dropping whole free-form units from the side that `keep` gives up.
pub fn enforce_context_limit(
    head: &str,
    units: &Vec<String>,
    tail: &str,
    context_limit: usize,
    reserve: usize,
    keep: OverflowKeep,
) -> (r: Result<String, BudgetError>)
    ensures
        ({
            let uv = units_view(units@);
            let budget = available_tokens(context_limit as nat, reserve as nat);
            let fixed = head@.len() + tail@.len();
            &&& token_count(render(head@, uv, tail@)) <= budget ==> r is Ok && r->Ok_0@ == render(
                head@,
                uv,
                tail@,
            )
            &&& fits(head@, uv, tail@, keep, 0, budget) ==> r is Ok && r->Ok_0@ == render(
                head@,
                kept_units(uv, keep, kept_count(head@, uv, tail@, keep, budget, uv.len())),
                tail@,
            )
            &&& !fits(head@, uv, tail@, keep, 0, budget) ==> r == Err::<String, BudgetError>(
                BudgetError::ContextLimitExceeded {
                    required: if fixed <= usize::MAX { fixed as usize } else { usize::MAX },
                    available: budget as usize,
                },
            )
        }),
{
    let ghost uv = units_view(units@);
    let ghost n = uv.len();
    let budget: usize = if reserve <= context_limit {
        context_limit - reserve
    } else {
        0
    };
    let head_len = head.unicode_len();
    let tail_len = tail.unicode_len();
    proof {
        assert(kept_units(uv, keep, 0).flatten() =~= Seq::<char>::empty()) by {
            assert(kept_units(uv, keep, 0) =~= Seq::<Seq<char>>::empty());
        }
    }
    if head_len > budget || tail_len > budget - head_len {
        let required: usize = if head_len <= usize::MAX - tail_len {
            head_len + tail_len
        } else {
            usize::MAX
        };
        return Err(BudgetError::ContextLimitExceeded { required, available: budget });
    }
    let len = units.len();
    let mut used: usize = head_len + tail_len;
    let mut k: usize = 0;
    let mut full = false;
    while k < len && !full
        invariant
            len == n,
            n == units@.len(),
            full ==> k < len && !fits(head@, uv, tail@, keep, k as nat + 1, budget as nat),
            uv == units_view(units@),
            k <= len,
            used == head_len + tail_len + kept_units(uv, keep, k as nat).flatten().len(),
            used <= budget,
            head_len == head@.len(),
            tail_len == tail@.len(),
            budget == available_tokens(context_limit as nat, reserve as nat),
        decreases len - k + (if full { 0int } else { 1int }),
    {
        let idx: usize = match keep {
            OverflowKeep::End => k,
            OverflowKeep::Start => len - 1 - k,
        };
        let unit_len = units[idx].as_str().unicode_len();
        proof {
            lemma_kept_step(uv, keep, k as nat);
        }
        if unit_len > budget - used {
            full = true;
        } else {
            used = used + unit_len;
            k = k + 1;
        }
    }
    proof {
        assert(fits(head@, uv, tail@, keep, k as nat, budget as nat));
        lemma_kept_count_is(head@, uv, tail@, keep, budget as nat, k as nat, n);
    }
    let start: usize = match keep {
        OverflowKeep::End => 0,
        OverflowKeep::Start => len - k,
    };
    let end: usize = start + k;
    let mut out = String::from_str(head);
    let mut j: usize = start;
    while j < end
        invariant
            start <= j <= end <= len,
            len == n,
            n == units@.len(),
            uv == units_view(units@),
            out@ == head@ + uv.subrange(start as int, j as int).flatten(),
        decreases end - j,
    {
        proof {
            assert(uv.subrange(start as int, j + 1) =~= uv.subrange(start as int, j as int).push(
                uv[j as int],
            ));
            uv.subrange(start as int, j as int).lemma_flatten_push(uv[j as int]);
        }
        out.append(units[j].as_str());
        j = j + 1;
    }
    out.append(tail);
    proof {
        assert(uv.subrange(start as int, end as int) =~= kept_units(uv, keep, k as nat));
        if token_count(render(head@, uv, tail@)) <= budget {
            lemma_budget_no_op(head@, uv, tail@, keep, budget as nat);
        }
    }
    Ok(out)
}

} // verus!
