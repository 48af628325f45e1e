//! Arithmetic expressions: the input filter, the tokenizer and the
//! shunting-yard conversion to postfix order. Numbers are carried as their
//! decimal text; evaluating them is left to the caller.
use vstd::prelude::*;
use crate::text::{is_space, char_is_whitespace, chars_of, string_of, string_of_range};

verus! {

/// A token of an arithmetic expression, as the specifications see it.
pub enum Tok {
    Num(Seq<char>),
    Op(char),
    LParen,
    RParen,
}

/// A token of an arithmetic expression. A number keeps its text, including a
/// leading unary minus.
#[derive(Clone, Debug, PartialEq)]
pub enum CalcToken {
    Number(String),
    Operator(char),
    LeftParen,
    RightParen,
}

impl View for CalcToken {
    type V = Tok;

    open spec fn view(&self) -> Tok {
        match self {
            CalcToken::Number(s) => Tok::Num(s@),
            CalcToken::Operator(c) => Tok::Op(*c),
            CalcToken::LeftParen => Tok::LParen,
            CalcToken::RightParen => Tok::RParen,
        }
    }
}

/// The view of each token of a sequence.
pub open spec fn toks(v: Seq<CalcToken>) -> Seq<Tok> {
    v.map_values(|t: CalcToken| t@)
}

/// The view of an optional token list.
pub open spec fn opt_toks(r: Option<Vec<CalcToken>>) -> Option<Seq<Tok>> {
    match r {
        Some(v) => Some(toks(v@)),
        None => None,
    }
}

/// `c` is one of the binary operators `+ - * / % ^`.
pub open spec fn is_operator_char(c: char) -> bool {
    c == '+' || c == '-' || c == '*' || c == '/' || c == '%' || c == '^'
}

/// `c` may continue a number: a decimal digit or a dot.
pub open spec fn is_number_char(c: char) -> bool {
    ('0' <= c && c <= '9') || c == '.'
}

/// Binding strength of an operator: `^` 4, `* / %` 3, `+ -` 2, others 0.
pub open spec fn precedence_of(op: char) -> int {
    if op == '^' {
        4
    } else if op == '*' || op == '/' || op == '%' {
        3
    } else if op == '+' || op == '-' {
        2
    } else {
        0
    }
}

/// Every operator but `^` groups to the left.
pub open spec fn left_assoc(op: char) -> bool {
    op != '^'
}

/// The index just past the run of number characters that starts at `j`.
pub open spec fn number_end(s: Seq<char>, j: int) -> int
    decreases s.len() - j,
{
    if 0 <= j < s.len() && is_number_char(s[j]) {
        number_end(s, j + 1)
    } else {
        j
    }
}

/// A run of number characters ends between its start and the end of the
/// text.
pub proof fn lemma_number_end_ge(s: Seq<char>, j: int)
    ensures
        number_end(s, j) >= j,
        j <= s.len() ==> number_end(s, j) <= s.len(),
    decreases s.len() - j,
{
    if 0 <= j < s.len() && is_number_char(s[j]) {
        lemma_number_end_ge(s, j + 1);
    }
}

/// A `-` read after these tokens starts a negative number.
pub open spec fn unary_context(ts: Seq<Tok>) -> bool {
    ts.len() == 0 || ts.last() is Op || ts.last() is LParen
}

/// Tokens of `s` from index `i` on, after the tokens `ts` already read; `None`
/// where a character belongs to no token or nothing was read at all.
pub open spec fn tokenize_from(s: Seq<char>, i: int, ts: Seq<Tok>) -> Option<Seq<Tok>>
    decreases s.len() - i,
{
    if i < 0 || i >= s.len() {
        if ts.len() == 0 {
            None
        } else {
            Some(ts)
        }
    } else {
        let c = s[i];
        if is_space(c) {
            tokenize_from(s, i + 1, ts)
        } else if is_number_char(c) || (c == '-' && unary_context(ts)) {
            let e = number_end(s, i + 1);
            proof {
                lemma_number_end_ge(s, i + 1);
            }
            tokenize_from(s, e, ts.push(Tok::Num(s.subrange(i, e))))
        } else if is_operator_char(c) {
            tokenize_from(s, i + 1, ts.push(Tok::Op(c)))
        } else if c == '(' {
            tokenize_from(s, i + 1, ts.push(Tok::LParen))
        } else if c == ')' {
            tokenize_from(s, i + 1, ts.push(Tok::RParen))
        } else {
            None
        }
    }
}

/// The tokens of expression `s`.
pub open spec fn tokens_of(s: Seq<char>) -> Option<Seq<Tok>> {
    tokenize_from(s, 0, Seq::empty())
}

/// Whether `c` is one of the binary operators `+ - * / % ^`.
pub fn is_operator(c: char) -> (r: bool)
    ensures
        r == is_operator_char(c),
{
    c == '+' || c == '-' || c == '*' || c == '/' || c == '%' || c == '^'
}

/// Binding strength of an operator.
pub fn precedence(op: char) -> (r: u8)
    ensures
        r as int == precedence_of(op),
{
    if op == '^' {
        4
    } else if op == '*' || op == '/' || op == '%' {
        3
    } else if op == '+' || op == '-' {
        2
    } else {
        0
    }
}

/// Whether `op` groups to the left.
pub fn is_left_assoc(op: char) -> (r: bool)
    ensures
        r == left_assoc(op),
{
    op != '^'
}

fn is_number_char_exec(c: char) -> (r: bool)
    ensures
        r == is_number_char(c),
{
    ('0' <= c && c <= '9') || c == '.'
}

fn copy_token(t: &CalcToken) -> (r: CalcToken)
    ensures
        r@ == t@,
{
    match t {
        CalcToken::Number(s) => CalcToken::Number(s.clone()),
        CalcToken::Operator(c) => CalcToken::Operator(*c),
        CalcToken::LeftParen => CalcToken::LeftParen,
        CalcToken::RightParen => CalcToken::RightParen,
    }
}

/// Splits `expr` into tokens, or `None` when a character fits no token or
/// there is no token at all.
pub fn tokenize_expression(expr: &str) -> (r: Option<Vec<CalcToken>>)
    ensures
        opt_toks(r) == tokens_of(expr@),
{
    let chars = chars_of(expr);
    let mut tokens: Vec<CalcToken> = Vec::new();
    let mut i: usize = 0;
    assert(toks(tokens@) =~= Seq::<Tok>::empty());
    while i < chars.len()
        invariant
            i <= chars.len(),
            chars@ == expr@,
            tokenize_from(expr@, i as int, toks(tokens@)) == tokens_of(expr@),
        decreases chars.len() - i,
    {
        let ghost ts = toks(tokens@);
        let c = chars[i];
        if char_is_whitespace(c) {
            i += 1;
            continue;
        }
        let unary_minus = c == '-' && (tokens.len() == 0 || match &tokens[tokens.len() - 1] {
            CalcToken::Operator(_) => true,
            CalcToken::LeftParen => true,
            _ => false,
        });
        assert(tokens.len() > 0 ==> ts.last() == tokens@.last()@);
        assert(unary_minus == (c == '-' && unary_context(ts)));
        if is_number_char_exec(c) || unary_minus {
            let start = i;
            i += 1;
            while i < chars.len() && is_number_char_exec(chars[i])
                invariant
                    start < i <= chars.len(),
                    chars@ == expr@,
                    number_end(expr@, start + 1) == number_end(expr@, i as int),
                decreases chars.len() - i,
            {
                i += 1;
            }
            let text = string_of_range(&chars, start, i);
            tokens.push(CalcToken::Number(text));
            assert(toks(tokens@) =~= ts.push(Tok::Num(expr@.subrange(start as int, i as int))));
            continue;
        }
        if is_operator(c) {
            tokens.push(CalcToken::Operator(c));
            assert(toks(tokens@) =~= ts.push(Tok::Op(c)));
            i += 1;
            continue;
        }
        if c == '(' {
            tokens.push(CalcToken::LeftParen);
            assert(toks(tokens@) =~= ts.push(Tok::LParen));
            i += 1;
            continue;
        }
        if c == ')' {
            tokens.push(CalcToken::RightParen);
            assert(toks(tokens@) =~= ts.push(Tok::RParen));
            i += 1;
            continue;
        }
        return None;
    }
    if tokens.len() == 0 {
        return None;
    }
    Some(tokens)
}

} // verus!

verus! {

/// With `op1` arriving, operator `op2` on top of the stack is emitted first:
/// it binds at least as tightly (left-associative `op1`) or strictly more
/// tightly (right-associative `op1`).
pub open spec fn pops_before(op1: char, op2: char) -> bool {
    (precedence_of(op1) <= precedence_of(op2) && left_assoc(op1)) || (precedence_of(op1)
        < precedence_of(op2) && !left_assoc(op1))
}

/// Moves operators from the top of `ops` to `out` while they pop before `op1`.
pub open spec fn pop_while(op1: char, out: Seq<Tok>, ops: Seq<Tok>) -> (Seq<Tok>, Seq<Tok>)
    decreases ops.len(),
{
    if ops.len() > 0 && ops.last() is Op && pops_before(op1, ops.last()->Op_0) {
        pop_while(op1, out.push(ops.last()), ops.drop_last())
    } else {
        (out, ops)
    }
}

/// Moves operators from `ops` to `out` down to the nearest left parenthesis,
/// which is dropped; `None` if there is none.
pub open spec fn close_group(out: Seq<Tok>, ops: Seq<Tok>) -> Option<(Seq<Tok>, Seq<Tok>)>
    decreases ops.len(),
{
    if ops.len() == 0 {
        None
    } else if ops.last() is LParen {
        Some((out, ops.drop_last()))
    } else if ops.last() is Op {
        close_group(out.push(ops.last()), ops.drop_last())
    } else {
        None
    }
}

/// Moves every operator left on `ops` to `out`; `None` if a parenthesis is
/// left open.
pub open spec fn drain_ops(out: Seq<Tok>, ops: Seq<Tok>) -> Option<Seq<Tok>>
    decreases ops.len(),
{
    if ops.len() == 0 {
        Some(out)
    } else if ops.last() is Op {
        drain_ops(out.push(ops.last()), ops.drop_last())
    } else {
        None
    }
}

/// The shunting-yard conversion of `ts` from index `i` on, with output `out`
/// and operator stack `ops` so far.
pub open spec fn rpn_from(ts: Seq<Tok>, i: int, out: Seq<Tok>, ops: Seq<Tok>) -> Option<Seq<Tok>>
    decreases ts.len() - i,
{
    if i < 0 || i >= ts.len() {
        drain_ops(out, ops)
    } else {
        match ts[i] {
            Tok::Num(_) => rpn_from(ts, i + 1, out.push(ts[i]), ops),
            Tok::Op(op1) => {
                let (o, s) = pop_while(op1, out, ops);
                rpn_from(ts, i + 1, o, s.push(ts[i]))
            },
            Tok::LParen => rpn_from(ts, i + 1, out, ops.push(ts[i])),
            Tok::RParen => match close_group(out, ops) {
                Some((o, s)) => rpn_from(ts, i + 1, o, s),
                None => None,
            },
        }
    }
}

/// The postfix order of `ts`, or `None` for unbalanced parentheses.
pub open spec fn rpn_of(ts: Seq<Tok>) -> Option<Seq<Tok>> {
    rpn_from(ts, 0, Seq::empty(), Seq::empty())
}

proof fn lemma_toks_push(v: Seq<CalcToken>, t: CalcToken)
    ensures
        toks(v.push(t)) == toks(v).push(t@),
{
    assert(toks(v.push(t)) =~= toks(v).push(t@));
}

proof fn lemma_toks_drop_last(v: Seq<CalcToken>)
    requires
        v.len() > 0,
    ensures
        toks(v.drop_last()) == toks(v).drop_last(),
        toks(v).last() == v.last()@,
{
    assert(toks(v.drop_last()) =~= toks(v).drop_last());
}

/// Reorders `tokens` into postfix order by the shunting-yard algorithm, or
/// `None` when the parentheses do not balance.
pub fn to_rpn(tokens: Vec<CalcToken>) -> (r: Option<Vec<CalcToken>>)
    ensures
        opt_toks(r) == rpn_of(toks(tokens@)),
{
    let mut output: Vec<CalcToken> = Vec::new();
    let mut ops: Vec<CalcToken> = Vec::new();
    let ghost ts = toks(tokens@);
    assert(toks(output@) =~= Seq::<Tok>::empty());
    assert(toks(ops@) =~= Seq::<Tok>::empty());
    let mut i: usize = 0;
    while i < tokens.len()
        invariant
            i <= tokens.len(),
            ts == toks(tokens@),
            rpn_from(ts, i as int, toks(output@), toks(ops@)) == rpn_of(ts),
        decreases tokens.len() - i,
    {
        let token = copy_token(&tokens[i]);
        assert(ts[i as int] == token@);
        let ghost out0 = toks(output@);
        let ghost ops0 = toks(ops@);
        match token {
            CalcToken::Number(_) => {
                proof {
                    lemma_toks_push(output@, token);
                }
                output.push(token);
            },
            CalcToken::Operator(op1) => {
                let ghost target = pop_while(op1, out0, ops0);
                loop
                    invariant
                        pop_while(op1, toks(output@), toks(ops@)) == target,
                    ensures
                        target == (toks(output@), toks(ops@)),
                    decreases ops.len(),
                {
                    if ops.len() == 0 {
                        break;
                    }
                    proof {
                        lemma_toks_drop_last(ops@);
                    }
                    let top_pops = match &ops[ops.len() - 1] {
                        CalcToken::Operator(op2) => {
                            precedence(op1) <= precedence(*op2) && is_left_assoc(op1) || precedence(
                                op1,
                            ) < precedence(*op2) && !is_left_assoc(op1)
                        },
                        _ => false,
                    };
                    if !top_pops {
                        break;
                    }
                    let ghost before = ops@;
                    match ops.pop() {
                        Some(popped) => {
                            proof {
                                lemma_toks_drop_last(before);
                                lemma_toks_push(output@, popped);
                            }
                            output.push(popped);
                        },
                        None => {},
                    }
                }
                proof {
                    lemma_toks_push(ops@, token);
                }
                ops.push(token);
            },
            CalcToken::LeftParen => {
                proof {
                    lemma_toks_push(ops@, token);
                }
                ops.push(token);
            },
            CalcToken::RightParen => {
                let ghost target = close_group(out0, ops0);
                loop
                    invariant_except_break
                        close_group(toks(output@), toks(ops@)) == target,
                    invariant
                        rpn_from(ts, i as int, out0, ops0) == rpn_of(ts),
                        ts[i as int] == Tok::RParen,
                        0 <= i < ts.len(),
                        ts == toks(tokens@),
                        target == close_group(out0, ops0),
                    ensures
                        target == Some((toks(output@), toks(ops@))),
                    decreases ops.len(),
                {
                    let ghost before = ops@;
                    match ops.pop() {
                        Some(top) => {
                            proof {
                                lemma_toks_drop_last(before);
                            }
                            match top {
                                CalcToken::LeftParen => break,
                                CalcToken::Operator(_) => {
                                    proof {
                                        lemma_toks_push(output@, top);
                                    }
                                    output.push(top);
                                },
                                _ => return None,
                            }
                        },
                        None => return None,
                    }
                }
            },
        }
        i += 1;
    }
    let ghost target = drain_ops(toks(output@), toks(ops@));
    loop
        invariant
            drain_ops(toks(output@), toks(ops@)) == target,
            target == rpn_of(ts),
            ts == toks(tokens@),
        decreases ops.len(),
    {
        let ghost before = ops@;
        match ops.pop() {
            Some(top) => {
                proof {
                    lemma_toks_drop_last(before);
                }
                match top {
                    CalcToken::Operator(_) => {
                        proof {
                            lemma_toks_push(output@, top);
                        }
                        output.push(top);
                    },
                    _ => return None,
                }
            },
            None => {
                assert(toks(ops@).len() == 0);
                return Some(output);
            },
        }
    }
}

} // verus!

verus! {

/// `c` survives the whitespace filter: it is no whitespace, or a plain space.
pub open spec fn kept_for_calc(c: char) -> bool {
    !is_space(c) || c == ' '
}

/// `s` without its whitespace other than plain spaces.
pub open spec fn cleaned(s: Seq<char>) -> Seq<char>
    decreases s.len(),
{
    if s.len() == 0 {
        Seq::empty()
    } else if kept_for_calc(s.last()) {
        cleaned(s.drop_last()).push(s.last())
    } else {
        cleaned(s.drop_last())
    }
}

/// `c` marks an operator: `+ - * / ^ %`, or `x` for multiplication.
pub open spec fn is_calc_marker(c: char) -> bool {
    c == '+' || c == '-' || c == '*' || c == '/' || c == '^' || c == '%' || c == 'x'
}

/// Some character of `s` marks an operator.
pub open spec fn has_calc_marker(s: Seq<char>) -> bool {
    exists|i: int| 0 <= i < s.len() && is_calc_marker(#[trigger] s[i])
}

/// `s` with every `x` written as `*`.
pub open spec fn x_as_times(s: Seq<char>) -> Seq<char> {
    s.map_values(|c: char| if c == 'x' { '*' } else { c })
}

/// The expression to evaluate for input `s`: `None` when, once whitespace
/// other than plain spaces is removed, it is empty or holds no operator.
pub open spec fn prepared(s: Seq<char>) -> Option<Seq<char>> {
    let c = cleaned(s);
    if c.len() == 0 || !has_calc_marker(c) {
        None
    } else {
        Some(x_as_times(c))
    }
}

/// The expression that an input stands for, ready for the tokenizer, or
/// `None` when the input cannot be a calculation.
pub fn prepare_expression(expr: &str) -> (r: Option<String>)
    ensures
        match r {
            Some(e) => prepared(expr@) == Some(e@),
            None => prepared(expr@) is None,
        },
{
    let chars = chars_of(expr);
    let mut kept: Vec<char> = Vec::new();
    let mut i: usize = 0;
    while i < chars.len()
        invariant
            i <= chars.len(),
            chars@ == expr@,
            kept@ == cleaned(expr@.subrange(0, i as int)),
        decreases chars.len() - i,
    {
        assert(expr@.subrange(0, i + 1).drop_last() == expr@.subrange(0, i as int));
        let c = chars[i];
        if !char_is_whitespace(c) || c == ' ' {
            kept.push(c);
        }
        i += 1;
    }
    assert(expr@.subrange(0, chars.len() as int) == expr@);
    if kept.len() == 0 {
        return None;
    }
    let mut has_marker = false;
    let mut out: Vec<char> = Vec::new();
    let mut j: usize = 0;
    while j < kept.len()
        invariant
            j <= kept.len(),
            out@ == x_as_times(kept@.subrange(0, j as int)),
            has_marker == has_calc_marker(kept@.subrange(0, j as int)),
        decreases kept.len() - j,
    {
        let ghost pre = kept@.subrange(0, j as int);
        let ghost next = kept@.subrange(0, j + 1);
        let c = kept[j];
        assert(next == pre.push(c));
        let marker = c == '+' || c == '-' || c == '*' || c == '/' || c == '^' || c == '%' || c
            == 'x';
        if marker {
            assert(next[j as int] == c);
        }
        if has_marker {
            proof {
                let k = choose|k: int| 0 <= k < pre.len() && is_calc_marker(#[trigger] pre[k]);
                assert(next[k] == pre[k]);
            }
        }
        if !marker && !has_marker {
            assert forall|k: int| 0 <= k < next.len() implies !is_calc_marker(#[trigger] next[k]) by {
                if k < pre.len() {
                    assert(next[k] == pre[k]);
                }
            }
        }
        has_marker = has_marker || marker;
        out.push(if c == 'x' {
            '*'
        } else {
            c
        });
        assert(out@ =~= x_as_times(next));
        j += 1;
    }
    assert(kept@.subrange(0, kept.len() as int) == kept@);
    if !has_marker {
        return None;
    }
    Some(string_of(&out))
}

proof fn lemma_cleaned_from_input(s: Seq<char>, k: int)
    requires
        0 <= k < cleaned(s).len(),
    ensures
        exists|i: int| 0 <= i < s.len() && s[i] == cleaned(s)[k],
    decreases s.len(),
{
    let d = s.drop_last();
    if kept_for_calc(s.last()) && k == cleaned(s).len() - 1 {
        assert(s[s.len() - 1] == cleaned(s)[k]);
    } else {
        lemma_cleaned_from_input(d, k);
        let i = choose|i: int| 0 <= i < d.len() && d[i] == cleaned(d)[k];
        assert(s[i] == d[i]);
    }
}

/// Input in which no character marks an operator is never a calculation.
pub proof fn lemma_no_operator_no_result(s: Seq<char>)
    requires
        forall|i: int| 0 <= i < s.len() ==> !is_calc_marker(#[trigger] s[i]),
    ensures
        prepared(s) is None,
{
    let c = cleaned(s);
    assert forall|k: int| 0 <= k < c.len() implies !is_calc_marker(#[trigger] c[k]) by {
        lemma_cleaned_from_input(s, k);
    }
}

} // verus!

verus! {

/// The number tokens of `s`, in order.
pub open spec fn numbers(s: Seq<Tok>) -> Seq<Tok>
    decreases s.len(),
{
    if s.len() == 0 {
        Seq::empty()
    } else if s.last() is Num {
        numbers(s.drop_last()).push(s.last())
    } else {
        numbers(s.drop_last())
    }
}

/// `s` holds no number token.
pub open spec fn no_numbers(s: Seq<Tok>) -> bool {
    forall|k: int| 0 <= k < s.len() ==> !(#[trigger] s[k] is Num)
}

proof fn lemma_numbers_concat(a: Seq<Tok>, b: Seq<Tok>)
    ensures
        numbers(a + b) == numbers(a) + numbers(b),
    decreases b.len(),
{
    if b.len() == 0 {
        assert(a + b == a);
        assert(numbers(a) + numbers(b) == numbers(a));
    } else {
        lemma_numbers_concat(a, b.drop_last());
        assert((a + b).drop_last() == a + b.drop_last());
        assert((a + b).last() == b.last());
        if b.last() is Num {
            assert(numbers(a + b) == numbers(a + b.drop_last()).push(b.last()));
            assert(numbers(a) + numbers(b) == numbers(a) + numbers(b.drop_last()).push(b.last()));
            assert((numbers(a) + numbers(b.drop_last())).push(b.last()) =~= numbers(a)
                + numbers(b.drop_last()).push(b.last()));
        }
    }
}

proof fn lemma_pop_while_numbers(op1: char, out: Seq<Tok>, ops: Seq<Tok>)
    requires
        no_numbers(ops),
    ensures
        numbers(pop_while(op1, out, ops).0) == numbers(out),
        no_numbers(pop_while(op1, out, ops).1),
    decreases ops.len(),
{
    if ops.len() > 0 && ops.last() is Op && pops_before(op1, ops.last()->Op_0) {
        assert(out.push(ops.last()).drop_last() == out);
        lemma_pop_while_numbers(op1, out.push(ops.last()), ops.drop_last());
    }
}

proof fn lemma_close_group_numbers(out: Seq<Tok>, ops: Seq<Tok>)
    requires
        no_numbers(ops),
    ensures
        close_group(out, ops) matches Some((o, s)) ==> numbers(o) == numbers(out) && no_numbers(s),
    decreases ops.len(),
{
    if ops.len() > 0 && !(ops.last() is LParen) && ops.last() is Op {
        assert(out.push(ops.last()).drop_last() == out);
        lemma_close_group_numbers(out.push(ops.last()), ops.drop_last());
    }
}

proof fn lemma_drain_numbers(out: Seq<Tok>, ops: Seq<Tok>)
    requires
        no_numbers(ops),
    ensures
        drain_ops(out, ops) matches Some(r) ==> numbers(r) == numbers(out),
    decreases ops.len(),
{
    if ops.len() > 0 && ops.last() is Op {
        assert(out.push(ops.last()).drop_last() == out);
        lemma_drain_numbers(out.push(ops.last()), ops.drop_last());
    }
}

proof fn lemma_rpn_from_numbers(ts: Seq<Tok>, i: int, out: Seq<Tok>, ops: Seq<Tok>)
    requires
        0 <= i <= ts.len(),
        no_numbers(ops),
    ensures
        rpn_from(ts, i, out, ops) matches Some(r) ==> numbers(r) == numbers(out) + numbers(
            ts.subrange(i, ts.len() as int),
        ),
    decreases ts.len() - i,
{
    let rest = ts.subrange(i, ts.len() as int);
    if i >= ts.len() {
        lemma_drain_numbers(out, ops);
        assert(numbers(rest) =~= Seq::<Tok>::empty());
        assert(numbers(out) + numbers(rest) =~= numbers(out));
    } else {
        let t = ts[i];
        let tail = ts.subrange(i + 1, ts.len() as int);
        assert(rest =~= seq![t] + tail);
        lemma_numbers_concat(seq![t], tail);
        let single = seq![t];
        assert(single.drop_last() =~= Seq::<Tok>::empty());
        assert(numbers(single.drop_last()) == Seq::<Tok>::empty());
        assert(single.last() == t);
        match t {
            Tok::Num(_) => {
                assert(numbers(single) =~= seq![t]);
                assert(out.push(t).drop_last() == out);
                lemma_rpn_from_numbers(ts, i + 1, out.push(t), ops);
                assert(numbers(out.push(t)) + numbers(tail) =~= numbers(out) + (seq![t] + numbers(
                    tail,
                )));
            },
            Tok::Op(op1) => {
                assert(numbers(single) =~= Seq::<Tok>::empty());
                lemma_pop_while_numbers(op1, out, ops);
                let (o, s) = pop_while(op1, out, ops);
                assert(no_numbers(s.push(t)));
                lemma_rpn_from_numbers(ts, i + 1, o, s.push(t));
                assert(Seq::<Tok>::empty() + numbers(tail) =~= numbers(tail));
            },
            Tok::LParen => {
                assert(numbers(single) =~= Seq::<Tok>::empty());
                assert(no_numbers(ops.push(t)));
                lemma_rpn_from_numbers(ts, i + 1, out, ops.push(t));
                assert(Seq::<Tok>::empty() + numbers(tail) =~= numbers(tail));
            },
            Tok::RParen => {
                assert(numbers(single) =~= Seq::<Tok>::empty());
                lemma_close_group_numbers(out, ops);
                match close_group(out, ops) {
                    Some((o, s)) => {
                        lemma_rpn_from_numbers(ts, i + 1, o, s);
                    },
                    None => {},
                }
                assert(Seq::<Tok>::empty() + numbers(tail) =~= numbers(tail));
            },
        }
    }
}

/// The postfix order keeps the numbers of the expression, in the order in
/// which they were written; only operators and parentheses move.
pub proof fn lemma_rpn_keeps_numbers(ts: Seq<Tok>)
    ensures
        rpn_of(ts) matches Some(r) ==> numbers(r) == numbers(ts),
{
    lemma_rpn_from_numbers(ts, 0, Seq::empty(), Seq::empty());
    assert(ts.subrange(0, ts.len() as int) == ts);
    assert(numbers(Seq::<Tok>::empty()) + numbers(ts) =~= numbers(ts));
}

} // verus!

verus! {

/// The depth of the evaluation stack after the postfix tokens `ts`: a
/// number pushes one value, an operator takes two and pushes one; `None`
/// once an operator finds fewer than two values or a parenthesis appears.
pub open spec fn stack_depth(ts: Seq<Tok>) -> Option<int>
    decreases ts.len(),
{
    if ts.len() == 0 {
        Some(0)
    } else {
        match stack_depth(ts.drop_last()) {
            None => None,
            Some(d) => match ts.last() {
                Tok::Num(_) => Some(d + 1),
                Tok::Op(_) => if d >= 2 {
                    Some(d - 1)
                } else {
                    None
                },
                _ => None,
            },
        }
    }
}

/// Postfix tokens `ts` evaluate to exactly one value.
pub open spec fn evaluable(ts: Seq<Tok>) -> bool {
    stack_depth(ts) == Some(1int)
}

/// Whether the postfix tokens `rpn` evaluate to exactly one value: every
/// operator finds two operands, no parenthesis is left, and one value
/// remains at the end.
pub fn is_evaluable(rpn: &Vec<CalcToken>) -> (r: bool)
    ensures
        r == evaluable(toks(rpn@)),
{
    let ghost ts = toks(rpn@);
    let mut depth: usize = 0;
    let mut i: usize = 0;
    while i < rpn.len()
        invariant
            i <= rpn.len(),
            ts == toks(rpn@),
            stack_depth(ts.subrange(0, i as int)) == Some(depth as int),
            depth <= i,
        decreases rpn.len() - i,
    {
        let ghost pre = ts.subrange(0, i as int);
        let ghost next = ts.subrange(0, i + 1);
        assert(next.drop_last() == pre);
        assert(next.last() == rpn@[i as int]@);
        match &rpn[i] {
            CalcToken::Number(_) => {
                depth = depth + 1;
            },
            CalcToken::Operator(_) => {
                if depth < 2 {
                    proof {
                        lemma_none_stays(ts, i + 1);
                    }
                    return false;
                }
                depth = depth - 1;
            },
            _ => {
                proof {
                    lemma_none_stays(ts, i + 1);
                }
                return false;
            },
        }
        i += 1;
    }
    assert(ts.subrange(0, rpn.len() as int) == ts);
    depth == 1
}

proof fn lemma_none_stays(ts: Seq<Tok>, k: int)
    requires
        0 <= k <= ts.len(),
        stack_depth(ts.subrange(0, k)) is None,
    ensures
        stack_depth(ts) is None,
    decreases ts.len() - k,
{
    if k < ts.len() {
        assert(ts.subrange(0, k + 1).drop_last() == ts.subrange(0, k));
        lemma_none_stays(ts, k + 1);
    } else {
        assert(ts.subrange(0, k) == ts);
    }
}

} // verus!
