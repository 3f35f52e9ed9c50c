//! From infix to postfix: operands go straight to the output, operators wait
//! on a stack until one that binds no tighter arrives.

use vstd::prelude::*;
use crate::elements::expr::arithmetic::elem::{elem_views, ArithElem, ElemView};
use crate::error::arith::{ArithError, ArithErrorView};
use crate::error::exec::{ExecError, ExecErrorView};

verus! {

/// Whether the waiting operator stays on the stack when `incoming` arrives:
/// it binds less tightly, or both are assignments, which group from the
/// right.
pub open spec fn stays_below(waiting: ElemView, incoming: ElemView) -> bool {
    waiting.order() < incoming.order() || (waiting.order() == 2 && incoming.order() == 2)
}

/// The stack and the output after the operator at index `e` has arrived:
/// every waiting operator that does not stay goes to the output, then the
/// operator is pushed.
pub open spec fn spec_rev_polish_op(tokens: Seq<ElemView>, e: int, stack: Seq<int>, out: Seq<int>) -> (
    Seq<int>,
    Seq<int>,
)
    decreases stack.len(),
{
    if stack.len() == 0 {
        (seq![e], out)
    } else if stays_below(tokens[stack.last()], tokens[e]) {
        (stack.push(e), out)
    } else {
        spec_rev_polish_op(tokens, e, stack.drop_last(), out.push(stack.last()))
    }
}

/// The indices of the tokens in postfix order, from token `i` on with the
/// given stack and output; two operands in a row are a syntax error.
pub open spec fn postfix_from(
    tokens: Seq<ElemView>,
    i: int,
    stack: Seq<int>,
    out: Seq<int>,
    prev_operand: bool,
) -> Result<Seq<int>, ArithErrorView>
    decreases tokens.len() - i,
{
    if i < 0 || i >= tokens.len() {
        Ok(out + stack.reverse())
    } else if tokens[i].is_operand() {
        if prev_operand {
            Err(ArithErrorView::SyntaxError(tokens[i].text()))
        } else {
            postfix_from(tokens, i + 1, stack, out.push(i), true)
        }
    } else {
        let (s, o) = spec_rev_polish_op(tokens, i, stack, out);
        postfix_from(tokens, i + 1, s, o, false)
    }
}

/// The indices of the tokens in postfix order.
pub open spec fn postfix_order(tokens: Seq<ElemView>) -> Result<Seq<int>, ArithErrorView> {
    postfix_from(tokens, 0, Seq::empty(), Seq::empty(), false)
}

/// The tokens in postfix order.
pub open spec fn rearranged(tokens: Seq<ElemView>) -> Result<Seq<ElemView>, ArithErrorView> {
    match postfix_order(tokens) {
        Ok(order) => Ok(Seq::new(order.len(), |k: int| tokens[order[k]])),
        Err(e) => Err(e),
    }
}

/// Whether every index of `s` is an index of a sequence of length `n`.
pub open spec fn all_below(s: Seq<int>, n: int) -> bool {
    forall|k: int| 0 <= k < s.len() ==> 0 <= #[trigger] s[k] < n
}

/// The rearrangement keeps its indices inside the token list.
pub proof fn lemma_rev_polish_op_bounds(tokens: Seq<ElemView>, e: int, stack: Seq<int>, out: Seq<int>)
    requires
        0 <= e < tokens.len(),
        all_below(stack, tokens.len() as int),
        all_below(out, tokens.len() as int),
    ensures
        all_below(spec_rev_polish_op(tokens, e, stack, out).0, tokens.len() as int),
        all_below(spec_rev_polish_op(tokens, e, stack, out).1, tokens.len() as int),
    decreases stack.len(),
{
    if stack.len() == 0 {
    } else if stays_below(tokens[stack.last()], tokens[e]) {
    } else {
        lemma_rev_polish_op_bounds(tokens, e, stack.drop_last(), out.push(stack.last()));
    }
}

/// Whether the output and the stack hold, between them, each of the first
/// `i` indices at most once and no other.
pub open spec fn holds_once(stack: Seq<int>, out: Seq<int>, i: int) -> bool {
    &&& all_below(stack, i)
    &&& all_below(out, i)
    &&& stack.no_duplicates()
    &&& out.no_duplicates()
    &&& forall|a: int, b: int| 0 <= a < stack.len() && 0 <= b < out.len() ==> stack[a] != out[b]
}

/// An operator that arrives moves indices from the stack to the output and
/// adds its own: none is lost, none occurs twice.
pub proof fn lemma_rev_polish_op_once(tokens: Seq<ElemView>, e: int, stack: Seq<int>, out: Seq<int>)
    requires
        0 <= e,
        holds_once(stack, out, e),
    ensures
        holds_once(
            spec_rev_polish_op(tokens, e, stack, out).0,
            spec_rev_polish_op(tokens, e, stack, out).1,
            e + 1,
        ),
        spec_rev_polish_op(tokens, e, stack, out).0.len() + spec_rev_polish_op(
            tokens,
            e,
            stack,
            out,
        ).1.len() == stack.len() + out.len() + 1,
    decreases stack.len(),
{
    if stack.len() == 0 {
        let s = seq![e];
        assert(all_below(s, e + 1));
        assert(all_below(out, e + 1)) by {
            assert forall|k: int| 0 <= k < out.len() implies 0 <= #[trigger] out[k] < e + 1 by {
                assert(0 <= out[k] < e);
            }
        }
        assert(s.no_duplicates());
        assert forall|a: int, b: int| 0 <= a < s.len() && 0 <= b < out.len() implies s[a] != out[b] by {
            assert(0 <= out[b] < e);
        }
    } else if stays_below(tokens[stack.last()], tokens[e]) {
        let s = stack.push(e);
        assert(all_below(s, e + 1)) by {
            assert forall|k: int| 0 <= k < s.len() implies 0 <= #[trigger] s[k] < e + 1 by {
                if k < stack.len() {
                    assert(s[k] == stack[k]);
                    assert(0 <= stack[k] < e);
                }
            }
        }
        assert(all_below(out, e + 1)) by {
            assert forall|k: int| 0 <= k < out.len() implies 0 <= #[trigger] out[k] < e + 1 by {
                assert(0 <= out[k] < e);
            }
        }
        assert forall|a: int, b: int| 0 <= a < b < s.len() implies s[a] != s[b] by {
            assert(s[a] == stack[a]);
            assert(0 <= stack[a] < e);
            if b < stack.len() {
                assert(s[b] == stack[b]);
            }
        }
        assert forall|a: int, b: int| 0 <= a < s.len() && 0 <= b < out.len() implies s[a] != out[b] by {
            assert(0 <= out[b] < e);
            if a < stack.len() {
                assert(s[a] == stack[a]);
            }
        }
    } else {
        let top = stack.last();
        let s = stack.drop_last();
        let o = out.push(top);
        assert forall|a: int, b: int| 0 <= a < b < o.len() implies o[a] != o[b] by {
            if b == out.len() {
                assert(o[a] == out[a]);
            }
        }
        assert forall|a: int, b: int| 0 <= a < s.len() && 0 <= b < o.len() implies s[a] != o[b] by {
            assert(s[a] == stack[a]);
            if b == out.len() {
                assert(stack[a] != stack[stack.len() - 1]);
            }
        }
        assert(holds_once(s, o, e)) by {
            assert forall|k: int| 0 <= k < s.len() implies 0 <= #[trigger] s[k] < e by {
                assert(s[k] == stack[k]);
            }
            assert forall|a: int, b: int| 0 <= a < b < s.len() implies s[a] != s[b] by {
                assert(s[a] == stack[a] && s[b] == stack[b]);
            }
        }
        lemma_rev_polish_op_once(tokens, e, s, o);
    }
}

/// The postfix order holds every index of a token exactly once.
pub proof fn lemma_postfix_from_once(
    tokens: Seq<ElemView>,
    i: int,
    stack: Seq<int>,
    out: Seq<int>,
    prev_operand: bool,
)
    requires
        0 <= i <= tokens.len(),
        holds_once(stack, out, i),
    ensures
        postfix_from(tokens, i, stack, out, prev_operand) matches Ok(order) ==> order.no_duplicates()
            && all_below(order, tokens.len() as int) && order.len() == stack.len() + out.len()
            + tokens.len() - i,
    decreases tokens.len() - i,
{
    if i >= tokens.len() {
        let order = out + stack.reverse();
        assert forall|a: int, b: int| 0 <= a < b < order.len() implies order[a] != order[b] by {
            if b < out.len() {
            } else if a >= out.len() {
                assert(order[a] == stack[stack.len() - 1 - (a - out.len())]);
                assert(order[b] == stack[stack.len() - 1 - (b - out.len())]);
            } else {
                assert(order[b] == stack[stack.len() - 1 - (b - out.len())]);
            }
        }
        assert forall|k: int| 0 <= k < order.len() implies 0 <= #[trigger] order[k] < tokens.len() by {
            if k >= out.len() {
                assert(order[k] == stack[stack.len() - 1 - (k - out.len())]);
            }
        }
    } else if tokens[i].is_operand() {
        if !prev_operand {
            let o = out.push(i);
            assert(holds_once(stack, o, i + 1)) by {
                assert forall|a: int, b: int| 0 <= a < b < o.len() implies o[a] != o[b] by {
                    if b == out.len() {
                        assert(o[a] == out[a]);
                    }
                }
            }
            lemma_postfix_from_once(tokens, i + 1, stack, o, true);
        }
    } else {
        lemma_rev_polish_op_once(tokens, i, stack, out);
        let (s, o) = spec_rev_polish_op(tokens, i, stack, out);
        lemma_postfix_from_once(tokens, i + 1, s, o, false);
    }
}

/// The rearrangement moves tokens and neither drops nor repeats one: the
/// postfix order has as many indices as there are tokens, each an index of
/// a token, and no two the same.
pub proof fn lemma_postfix_is_permutation(tokens: Seq<ElemView>)
    ensures
        postfix_order(tokens) matches Ok(order) ==> order.len() == tokens.len() && order.no_duplicates()
            && all_below(order, tokens.len() as int),
        rearranged(tokens) matches Ok(post) ==> post.len() == tokens.len(),
{
    lemma_postfix_from_once(tokens, 0, Seq::empty(), Seq::empty(), false);
}

/// Whether two operands stand side by side at or after token `i`.
pub open spec fn operands_meet(tokens: Seq<ElemView>, i: int) -> bool {
    exists|j: int| i <= j && j + 1 < tokens.len() && (#[trigger] tokens[j]).is_operand() && tokens[j + 1].is_operand()
}

/// From token `i` on the rearrangement fails exactly when token `i` is an
/// operand that follows an operand, or two operands stand side by side
/// later on.
pub proof fn lemma_postfix_from_fails(
    tokens: Seq<ElemView>,
    i: int,
    stack: Seq<int>,
    out: Seq<int>,
    prev_operand: bool,
)
    requires
        0 <= i <= tokens.len(),
    ensures
        postfix_from(tokens, i, stack, out, prev_operand) is Err <==> (prev_operand && i < tokens.len()
            && tokens[i].is_operand()) || operands_meet(tokens, i),
    decreases tokens.len() - i,
{
    if i >= tokens.len() {
    } else if tokens[i].is_operand() {
        if !prev_operand {
            lemma_postfix_from_fails(tokens, i + 1, stack, out.push(i), true);
            if operands_meet(tokens, i) {
                let j = choose|j: int|
                    i <= j && j + 1 < tokens.len() && (#[trigger] tokens[j]).is_operand() && tokens[j
                        + 1].is_operand();
                if j > i {
                    assert(operands_meet(tokens, i + 1));
                }
            }
            if i + 1 < tokens.len() && tokens[i + 1].is_operand() {
                assert(tokens[i].is_operand());
                assert(operands_meet(tokens, i));
            }
            if operands_meet(tokens, i + 1) {
                let j = choose|j: int|
                    i + 1 <= j && j + 1 < tokens.len() && (#[trigger] tokens[j]).is_operand() && tokens[j
                        + 1].is_operand();
                assert(operands_meet(tokens, i));
            }
        }
    } else {
        let (s, o) = spec_rev_polish_op(tokens, i, stack, out);
        lemma_postfix_from_fails(tokens, i + 1, s, o, false);
        if operands_meet(tokens, i) {
            let j = choose|j: int|
                i <= j && j + 1 < tokens.len() && (#[trigger] tokens[j]).is_operand() && tokens[j
                    + 1].is_operand();
            assert(j > i);
            assert(operands_meet(tokens, i + 1));
        }
        if operands_meet(tokens, i + 1) {
            let j = choose|j: int|
                i + 1 <= j && j + 1 < tokens.len() && (#[trigger] tokens[j]).is_operand() && tokens[j
                    + 1].is_operand();
            assert(operands_meet(tokens, i));
        }
    }
}

/// The rearrangement fails exactly when two operands stand side by side.
pub proof fn lemma_rearrange_fails(tokens: Seq<ElemView>)
    ensures
        rearranged(tokens) is Err <==> operands_meet(tokens, 0),
        postfix_order(tokens) is Err <==> operands_meet(tokens, 0),
{
    lemma_postfix_from_fails(tokens, 0, Seq::empty(), Seq::empty(), false);
}

/// Whether none of the indices of `s` is that of an operand.
pub open spec fn no_operands(tokens: Seq<ElemView>, s: Seq<int>) -> bool {
    forall|k: int| 0 <= k < s.len() ==> !tokens[#[trigger] s[k]].is_operand()
}

/// Whether the operands among the indices of `s` come in ascending order.
pub open spec fn operands_ascend(tokens: Seq<ElemView>, s: Seq<int>) -> bool {
    forall|a: int, b: int|
        0 <= a < b < s.len() && tokens[#[trigger] s[a]].is_operand() && tokens[#[trigger] s[b]].is_operand()
            ==> s[a] < s[b]
}

/// An operator that arrives moves operators alone: the stack still holds
/// no operand, and the operands of the output are those that were there.
pub proof fn lemma_rev_polish_op_operands(tokens: Seq<ElemView>, e: int, stack: Seq<int>, out: Seq<int>)
    requires
        !tokens[e].is_operand(),
        no_operands(tokens, stack),
        operands_ascend(tokens, out),
    ensures
        no_operands(tokens, spec_rev_polish_op(tokens, e, stack, out).0),
        operands_ascend(tokens, spec_rev_polish_op(tokens, e, stack, out).1),
    decreases stack.len(),
{
    if stack.len() == 0 {
    } else if stays_below(tokens[stack.last()], tokens[e]) {
    } else {
        let o = out.push(stack.last());
        assert(!tokens[stack[stack.len() - 1]].is_operand());
        assert(operands_ascend(tokens, o)) by {
            assert forall|a: int, b: int|
                0 <= a < b < o.len() && tokens[#[trigger] o[a]].is_operand() && tokens[#[trigger] o[b]].is_operand() implies o[a]
                < o[b] by {
                if b < out.len() {
                    assert(o[a] == out[a] && o[b] == out[b]);
                }
            }
        }
        assert(no_operands(tokens, stack.drop_last())) by {
            assert forall|k: int| 0 <= k < stack.drop_last().len() implies !tokens[#[trigger] stack.drop_last()[k]].is_operand() by {
                assert(stack.drop_last()[k] == stack[k]);
            }
        }
        lemma_rev_polish_op_operands(tokens, e, stack.drop_last(), o);
    }
}

/// From token `i` on the rearrangement keeps the operands in their order.
pub proof fn lemma_postfix_from_operands(
    tokens: Seq<ElemView>,
    i: int,
    stack: Seq<int>,
    out: Seq<int>,
    prev_operand: bool,
)
    requires
        0 <= i <= tokens.len(),
        holds_once(stack, out, i),
        no_operands(tokens, stack),
        operands_ascend(tokens, out),
    ensures
        postfix_from(tokens, i, stack, out, prev_operand) matches Ok(order) ==> operands_ascend(
            tokens,
            order,
        ),
    decreases tokens.len() - i,
{
    if i >= tokens.len() {
        let order = out + stack.reverse();
        assert forall|a: int, b: int|
            0 <= a < b < order.len() && tokens[#[trigger] order[a]].is_operand() && tokens[#[trigger] order[b]].is_operand() implies order[a]
            < order[b] by {
            if b < out.len() {
                assert(order[a] == out[a] && order[b] == out[b]);
            } else {
                assert(order[b] == stack[stack.len() - 1 - (b - out.len())]);
            }
        }
    } else if tokens[i].is_operand() {
        if !prev_operand {
            let o = out.push(i);
            assert(holds_once(stack, o, i + 1)) by {
                assert forall|a: int, b: int| 0 <= a < b < o.len() implies o[a] != o[b] by {
                    if b == out.len() {
                        assert(o[a] == out[a]);
                    }
                }
            }
            assert(operands_ascend(tokens, o)) by {
                assert forall|a: int, b: int|
                    0 <= a < b < o.len() && tokens[#[trigger] o[a]].is_operand() && tokens[#[trigger] o[b]].is_operand() implies o[a]
                    < o[b] by {
                    if b < out.len() {
                        assert(o[a] == out[a] && o[b] == out[b]);
                    } else {
                        assert(o[a] == out[a]);
                    }
                }
            }
            lemma_postfix_from_operands(tokens, i + 1, stack, o, true);
        }
    } else {
        lemma_rev_polish_op_once(tokens, i, stack, out);
        lemma_rev_polish_op_operands(tokens, i, stack, out);
        let (s, o) = spec_rev_polish_op(tokens, i, stack, out);
        lemma_postfix_from_operands(tokens, i + 1, s, o, false);
    }
}

/// The rearrangement keeps the operands in the order in which they stand:
/// of two operands, the one that stood first comes first.
pub proof fn lemma_rearrange_keeps_operands(tokens: Seq<ElemView>)
    ensures
        postfix_order(tokens) matches Ok(order) ==> operands_ascend(tokens, order),
{
    lemma_postfix_from_operands(tokens, 0, Seq::empty(), Seq::empty(), false);
}

/// The view of a list of indices.
pub open spec fn indices(v: Seq<usize>) -> Seq<int> {
    Seq::new(v.len(), |k: int| v[k] as int)
}

/// Lets the operator at index `e` arrive: the waiting operators that bind
/// at least as tightly go to the output, then it is pushed. Assignments do
/// not displace one another.
pub fn rev_polish_op(elements: &[ArithElem], e: usize, stack: &mut Vec<usize>, ans: &mut Vec<usize>)
    requires
        e < elements.len(),
        all_below(indices(old(stack)@), elements.len() as int),
    ensures
        (indices(final(stack)@), indices(final(ans)@)) == spec_rev_polish_op(
            elem_views(elements@),
            e as int,
            indices(old(stack)@),
            indices(old(ans)@),
        ),
{
    let ghost tokens = elem_views(elements@);
    loop
        invariant_except_break
            all_below(indices(stack@), elements.len() as int),
            spec_rev_polish_op(tokens, e as int, indices(old(stack)@), indices(old(ans)@))
                == spec_rev_polish_op(tokens, e as int, indices(stack@), indices(ans@)),
        invariant
            e < elements.len(),
            tokens == elem_views(elements@),
        ensures
            (indices(stack@), indices(ans@)) == spec_rev_polish_op(
                tokens,
                e as int,
                indices(old(stack)@),
                indices(old(ans)@),
            ),
        decreases stack.len(),
    {
        let ghost s0 = indices(stack@);
        let ghost a0 = indices(ans@);
        if stack.len() == 0 {
            stack.push(e);
            assert(indices(stack@) =~= seq![e as int]);
            break;
        }
        let last = stack[stack.len() - 1];
        assert(s0.last() == last);
        assert(0 <= s0[s0.len() - 1] < elements.len());
        assert(tokens[last as int] == elements[last as int]@);
        assert(tokens[e as int] == elements[e as int]@);
        let waiting = elements[last].order();
        let incoming = elements[e].order();
        if waiting < incoming || (waiting == 2 && incoming == 2) {
            stack.push(e);
            assert(indices(stack@) =~= s0.push(e as int));
            break;
        }
        stack.pop();
        ans.push(last);
        proof {
            assert(indices(stack@) =~= s0.drop_last());
            assert(indices(ans@) =~= a0.push(last as int));
            assert forall|k: int| 0 <= k < indices(stack@).len() implies 0 <= #[trigger] indices(
                stack@,
            )[k] < elements.len() by {
                assert(indices(stack@)[k] == s0[k]);
            }
        }
    }
}

/// The indices of the tokens in postfix order.
pub fn rev_polish_order(elements: &[ArithElem]) -> (r: Result<Vec<usize>, ArithError>)
    ensures
        match r {
            Ok(order) => postfix_order(elem_views(elements@)) == Ok::<Seq<int>, ArithErrorView>(
                indices(order@),
            ) && all_below(indices(order@), elements.len() as int),
            Err(e) => postfix_order(elem_views(elements@)) == Err::<Seq<int>, ArithErrorView>(e@),
        },
{
    let ghost tokens = elem_views(elements@);
    let mut ans: Vec<usize> = Vec::new();
    let mut stack: Vec<usize> = Vec::new();
    let mut prev_operand = false;
    let mut i: usize = 0;
    proof {
        assert(indices(ans@) =~= Seq::<int>::empty());
        assert(indices(stack@) =~= Seq::<int>::empty());
    }
    while i < elements.len()
        invariant
            i <= elements.len(),
            tokens == elem_views(elements@),
            all_below(indices(stack@), elements.len() as int),
            all_below(indices(ans@), elements.len() as int),
            postfix_order(tokens) == postfix_from(
                tokens,
                i as int,
                indices(stack@),
                indices(ans@),
                prev_operand,
            ),
        decreases elements.len() - i,
    {
        let ghost s0 = indices(stack@);
        let ghost a0 = indices(ans@);
        assert(tokens[i as int] == elements[i as int]@);
        let operand = elements[i].is_operand();
        if prev_operand && operand {
            return Err(ArithError::SyntaxError(elements[i].to_text()));
        }
        prev_operand = operand;
        if operand {
            ans.push(i);
            assert(indices(ans@) =~= a0.push(i as int));
        } else {
            proof {
                lemma_rev_polish_op_bounds(tokens, i as int, s0, a0);
            }
            rev_polish_op(elements, i, &mut stack, &mut ans);
        }
        i += 1;
    }
    let ghost before_drain = indices(ans@) + indices(stack@).reverse();
    while stack.len() > 0
        invariant
            all_below(indices(stack@), elements.len() as int),
            all_below(indices(ans@), elements.len() as int),
            before_drain == indices(ans@) + indices(stack@).reverse(),
        decreases stack.len(),
    {
        let ghost s0 = indices(stack@);
        let ghost a0 = indices(ans@);
        let top = stack.pop().unwrap();
        ans.push(top);
        proof {
            assert(top == s0.last());
            assert(indices(stack@) =~= s0.drop_last());
            assert(indices(ans@) =~= a0.push(top as int));
            assert(s0.reverse() =~= seq![top as int] + s0.drop_last().reverse());
            assert(indices(ans@) + indices(stack@).reverse() =~= a0 + s0.reverse());
            assert forall|k: int| 0 <= k < indices(stack@).len() implies 0 <= #[trigger] indices(
                stack@,
            )[k] < elements.len() by {
                assert(indices(stack@)[k] == s0[k]);
            }
        }
    }
    proof {
        assert(indices(stack@).reverse() =~= Seq::<int>::empty());
        assert(indices(ans@) + Seq::<int>::empty() =~= indices(ans@));
    }
    Ok(ans)
}

/// The tokens in postfix order: operands in their order, each operator
/// after its operands. Two operands in a row are a syntax error.
pub fn rearrange(elements: &[ArithElem]) -> (r: Result<Vec<ArithElem>, ExecError>)
    ensures
        match r {
            Ok(post) => rearranged(elem_views(elements@)) == Ok::<Seq<ElemView>, ArithErrorView>(
                elem_views(post@),
            ),
            Err(e) => rearranged(elem_views(elements@)) matches Err(a) && e@
                == ExecErrorView::ArithError(Seq::empty(), a),
        },
{
    let order = match rev_polish_order(elements) {
        Ok(order) => order,
        Err(e) => {
            return Err(ExecError::ArithError(String::new(), e));
        },
    };
    let ghost tokens = elem_views(elements@);
    let mut out: Vec<ArithElem> = Vec::new();
    let mut k: usize = 0;
    while k < order.len()
        invariant
            k <= order.len(),
            out.len() == k,
            tokens == elem_views(elements@),
            all_below(indices(order@), elements.len() as int),
            forall|j: int| 0 <= j < k ==> out[j]@ == tokens[indices(order@)[j]],
        decreases order.len() - k,
    {
        assert(0 <= indices(order@)[k as int] < elements.len());
        assert(tokens[order[k as int] as int] == elements[order[k as int] as int]@);
        out.push(elements[order[k]].duplicate());
        k += 1;
    }
    assert(elem_views(out@) =~= Seq::new(
        indices(order@).len(),
        |j: int| tokens[indices(order@)[j]],
    ));
    Ok(out)
}

} // verus!
