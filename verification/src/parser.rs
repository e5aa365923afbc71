//! From a line to the invocations it asks for.
//!
//! A line is scanned from its last token to its first. A number joins the
//! arguments gathered so far. Any other token names a command: it is invoked
//! with the gathered arguments, in the order in which the line holds them, and
//! the gathering starts anew. So a name receives the numbers that follow it up
//! to the next name, names fire from right to left, and numbers that no name
//! stands before are dropped.

use vstd::prelude::*;
use crate::number::{is_number, number_texts, Number};
use crate::token::{
    all_tokens, is_token, joined, lemma_tokens_of_joined, split_tokens, texts, tokens_of,
};

verus! {

/// One invocation in the model: the name of a command and the texts of its arguments.
pub struct InvocationView {
    pub name: Seq<char>,
    pub args: Seq<Seq<char>>,
}

/// One invocation: the name of a command and the arguments it is called with.
pub struct Invocation {
    pub name: String,
    pub args: Vec<Number>,
}

impl View for Invocation {
    type V = InvocationView;

    open spec fn view(&self) -> InvocationView {
        InvocationView { name: self.name@, args: number_texts(self.args@) }
    }
}

/// The views of a vector of invocations.
pub open spec fn plan_of(v: Seq<Invocation>) -> Seq<InvocationView> {
    v.map_values(|i: Invocation| i@)
}

/// How many numbers `tokens` starts with.
pub open spec fn number_run(tokens: Seq<Seq<char>>) -> nat
    decreases tokens.len(),
{
    if tokens.len() == 0 || !is_number(tokens[0]) {
        0
    } else {
        1 + number_run(tokens.drop_first())
    }
}

/// The numbers that `tokens` starts with.
pub open spec fn leading_numbers(tokens: Seq<Seq<char>>) -> Seq<Seq<char>> {
    tokens.take(number_run(tokens) as int)
}

/// The invocations that a sequence of tokens asks for, in the order in which
/// they are made: each name with the numbers that follow it, the rightmost
/// name first.
pub open spec fn invocations(tokens: Seq<Seq<char>>) -> Seq<InvocationView>
    decreases tokens.len(),
{
    if tokens.len() == 0 {
        seq![]
    } else if is_number(tokens[0]) {
        invocations(tokens.drop_first())
    } else {
        invocations(tokens.drop_first()).push(
            InvocationView { name: tokens[0], args: leading_numbers(tokens.drop_first()) },
        )
    }
}

pub proof fn lemma_number_run_bound(tokens: Seq<Seq<char>>)
    ensures
        number_run(tokens) <= tokens.len(),
    decreases tokens.len(),
{
    if tokens.len() > 0 && is_number(tokens[0]) {
        lemma_number_run_bound(tokens.drop_first());
    }
}

/// A number in front of `rest` joins the numbers that `rest` starts with.
proof fn lemma_leading_numbers_cons(first: Seq<char>, rest: Seq<Seq<char>>)
    ensures
        leading_numbers(seq![first] + rest) == if is_number(first) {
            seq![first] + leading_numbers(rest)
        } else {
            Seq::<Seq<char>>::empty()
        },
{
    let all = seq![first] + rest;
    assert(all.drop_first() =~= rest);
    lemma_number_run_bound(rest);
    if is_number(first) {
        assert(all.take(1 + number_run(rest) as int) =~= seq![first] + rest.take(
            number_run(rest) as int,
        ));
    } else {
        assert(all.take(0) =~= Seq::<Seq<char>>::empty());
    }
}

/// Whether every token of `tokens` is a number.
pub open spec fn all_numbers(tokens: Seq<Seq<char>>) -> bool {
    forall|i: int| 0 <= i < tokens.len() ==> is_number(#[trigger] tokens[i])
}

/// Numbers alone ask for no invocation, and all of them lead.
pub proof fn lemma_numbers_alone(numbers: Seq<Seq<char>>)
    requires
        all_numbers(numbers),
    ensures
        invocations(numbers) == Seq::<InvocationView>::empty(),
        leading_numbers(numbers) == numbers,
    decreases numbers.len(),
{
    if numbers.len() > 0 {
        let rest = numbers.drop_first();
        assert forall|i: int| 0 <= i < rest.len() implies is_number(#[trigger] rest[i]) by {
            assert(rest[i] == numbers[i + 1]);
        }
        lemma_numbers_alone(rest);
        assert(is_number(numbers[0]));
        assert(numbers =~= seq![numbers[0]] + rest);
        lemma_leading_numbers_cons(numbers[0], rest);
    } else {
        assert(numbers.take(0) =~= numbers);
    }
}

/// The numbers that lead a sequence end at the first name.
pub proof fn lemma_leading_numbers_stop(left: Seq<Seq<char>>, name: Seq<char>, right: Seq<Seq<char>>)
    requires
        !is_number(name),
    ensures
        leading_numbers(left + seq![name] + right) == leading_numbers(left + seq![name]),
        all_numbers(left) ==> leading_numbers(left + seq![name] + right) == left,
    decreases left.len(),
{
    let short = left + seq![name];
    let long = left + seq![name] + right;
    if left.len() == 0 {
        assert(short =~= seq![name] + Seq::<Seq<char>>::empty());
        assert(long =~= seq![name] + right);
        lemma_leading_numbers_cons(name, Seq::<Seq<char>>::empty());
        lemma_leading_numbers_cons(name, right);
        assert(left =~= Seq::<Seq<char>>::empty());
    } else {
        let rest = left.drop_first();
        lemma_leading_numbers_stop(rest, name, right);
        assert(short =~= seq![left[0]] + (rest + seq![name]));
        assert(long =~= seq![left[0]] + (rest + seq![name] + right));
        lemma_leading_numbers_cons(left[0], rest + seq![name]);
        lemma_leading_numbers_cons(left[0], rest + seq![name] + right);
        if all_numbers(left) {
            assert(is_number(left[0]));
            assert forall|i: int| 0 <= i < rest.len() implies is_number(#[trigger] rest[i]) by {
                assert(rest[i] == left[i + 1]);
            }
            assert(left =~= seq![left[0]] + rest);
        }
    }
}

/// A name parts a line in two: what follows the name is invoked first, then
/// the name with the numbers that follow it directly, then what stands
/// before the name. What stands before a name has no part in its arguments.
pub proof fn lemma_invocations_around_name(
    left: Seq<Seq<char>>,
    name: Seq<char>,
    right: Seq<Seq<char>>,
)
    requires
        !is_number(name),
    ensures
        invocations(left + seq![name] + right) == invocations(right).push(
            InvocationView { name, args: leading_numbers(right) },
        ) + invocations(left),
    decreases left.len(),
{
    let all = left + seq![name] + right;
    let middle = InvocationView { name, args: leading_numbers(right) };
    if left.len() == 0 {
        assert(all =~= seq![name] + right);
        assert(all.drop_first() =~= right);
        assert(invocations(right).push(middle) + invocations(left) =~= invocations(right).push(
            middle,
        ));
    } else {
        let rest = left.drop_first();
        lemma_invocations_around_name(rest, name, right);
        assert(all.drop_first() =~= rest + seq![name] + right);
        assert(all[0] == left[0]);
        if is_number(left[0]) {
        } else {
            lemma_leading_numbers_stop(rest, name, right);
            lemma_leading_numbers_stop(rest, name, Seq::<Seq<char>>::empty());
            assert(rest + seq![name] + Seq::<Seq<char>>::empty() =~= rest + seq![name]);
            lemma_leading_numbers_before_name(rest, name);
            let own = InvocationView { name: left[0], args: leading_numbers(rest) };
            assert((invocations(right).push(middle) + invocations(rest)).push(own)
                =~= invocations(right).push(middle) + invocations(rest).push(own));
        }
    }
}

/// A name at the end takes no part in the numbers that lead a sequence.
proof fn lemma_leading_numbers_before_name(left: Seq<Seq<char>>, name: Seq<char>)
    requires
        !is_number(name),
    ensures
        leading_numbers(left + seq![name]) == leading_numbers(left),
    decreases left.len(),
{
    if left.len() == 0 {
        assert(left + seq![name] =~= seq![name] + Seq::<Seq<char>>::empty());
        lemma_leading_numbers_cons(name, Seq::<Seq<char>>::empty());
        assert(left.take(0) =~= Seq::<Seq<char>>::empty());
    } else {
        let rest = left.drop_first();
        lemma_leading_numbers_before_name(rest, name);
        assert(left + seq![name] =~= seq![left[0]] + (rest + seq![name]));
        assert(left =~= seq![left[0]] + rest);
        lemma_leading_numbers_cons(left[0], rest + seq![name]);
        lemma_leading_numbers_cons(left[0], rest);
    }
}

/// A line that is a name and then numbers asks for one invocation: the name,
/// with exactly those numbers, in their order.
pub proof fn lemma_name_then_numbers(name: Seq<char>, numbers: Seq<Seq<char>>)
    requires
        !is_number(name),
        all_numbers(numbers),
    ensures
        invocations(seq![name] + numbers) == seq![InvocationView { name, args: numbers }],
{
    lemma_numbers_alone(numbers);
    lemma_invocations_around_name(Seq::<Seq<char>>::empty(), name, numbers);
    assert(Seq::<Seq<char>>::empty() + seq![name] + numbers =~= seq![name] + numbers);
    assert(invocations(numbers).push(InvocationView { name, args: numbers }) + invocations(
        Seq::<Seq<char>>::empty(),
    ) =~= seq![InvocationView { name, args: numbers }]);
}

/// A line that is numbers and then a name asks for one invocation: the name,
/// without arguments. The scan reaches the name before the numbers, which no
/// name then stands before, so they are dropped.
pub proof fn lemma_numbers_then_name(numbers: Seq<Seq<char>>, name: Seq<char>)
    requires
        all_numbers(numbers),
        !is_number(name),
    ensures
        invocations(numbers + seq![name]) == seq![
            InvocationView { name, args: Seq::<Seq<char>>::empty() },
        ],
{
    let none = Seq::<Seq<char>>::empty();
    lemma_numbers_alone(numbers);
    lemma_numbers_alone(none);
    lemma_invocations_around_name(numbers, name, none);
    assert(numbers + seq![name] + none =~= numbers + seq![name]);
    assert(invocations(none).push(InvocationView { name, args: none }) + invocations(numbers)
        =~= seq![InvocationView { name, args: none }]);
}

/// Two names side by side both fire, the right one first: it receives the
/// numbers that follow it directly, and the left one receives none.
pub proof fn lemma_adjacent_names(
    left: Seq<Seq<char>>,
    first: Seq<char>,
    second: Seq<char>,
    right: Seq<Seq<char>>,
)
    requires
        !is_number(first),
        !is_number(second),
    ensures
        invocations(left + seq![first, second] + right) == invocations(right).push(
            InvocationView { name: second, args: leading_numbers(right) },
        ).push(InvocationView { name: first, args: Seq::<Seq<char>>::empty() }) + invocations(left),
{
    let none = Seq::<Seq<char>>::empty();
    let tail = seq![second] + right;
    lemma_invocations_around_name(left, first, tail);
    lemma_invocations_around_name(none, second, right);
    lemma_leading_numbers_cons(second, right);
    assert(left + seq![first] + tail =~= left + seq![first, second] + right);
    assert(none + seq![second] + right =~= tail);
    assert(invocations(right).push(InvocationView { name: second, args: leading_numbers(right) })
        + invocations(none) =~= invocations(right).push(
        InvocationView { name: second, args: leading_numbers(right) },
    ));
}

/// The line `NAME N1 ... Nk` invokes `NAME` once, with exactly `N1 ... Nk` in
/// that order, and nothing else.
pub proof fn lemma_line_of_name_then_numbers(name: Seq<char>, numbers: Seq<Seq<char>>)
    requires
        is_token(name),
        !is_number(name),
        all_tokens(numbers),
        all_numbers(numbers),
    ensures
        invocations(tokens_of(joined(seq![name] + numbers))) == seq![
            InvocationView { name, args: numbers },
        ],
{
    lemma_tokens_of_joined(seq![name] + numbers);
    lemma_name_then_numbers(name, numbers);
}

/// The line `N1 ... Nk NAME` invokes `NAME` once, without arguments, and
/// nothing else: `NAME` receives `N1 ... Nk` only where there are none.
pub proof fn lemma_line_of_numbers_then_name(numbers: Seq<Seq<char>>, name: Seq<char>)
    requires
        all_tokens(numbers),
        all_numbers(numbers),
        is_token(name),
        !is_number(name),
    ensures
        invocations(tokens_of(joined(numbers + seq![name]))) == seq![
            InvocationView { name, args: Seq::<Seq<char>>::empty() },
        ],
        numbers.len() == 0 ==> invocations(tokens_of(joined(numbers + seq![name]))) == seq![
            InvocationView { name, args: numbers },
        ],
{
    lemma_tokens_of_joined(numbers + seq![name]);
    lemma_numbers_then_name(numbers, name);
    if numbers.len() == 0 {
        assert(numbers =~= Seq::<Seq<char>>::empty());
    }
}

/// In a line with two names side by side, both fire, the right one first, and
/// the left one without arguments; where no number follows the right one
/// directly, it has none either.
pub proof fn lemma_line_with_adjacent_names(
    left: Seq<Seq<char>>,
    first: Seq<char>,
    second: Seq<char>,
    right: Seq<Seq<char>>,
)
    requires
        all_tokens(left),
        all_tokens(right),
        is_token(first),
        is_token(second),
        !is_number(first),
        !is_number(second),
    ensures
        invocations(tokens_of(joined(left + seq![first, second] + right))) == invocations(
            right,
        ).push(InvocationView { name: second, args: leading_numbers(right) }).push(
            InvocationView { name: first, args: Seq::<Seq<char>>::empty() },
        ) + invocations(left),
        right.len() == 0 || !is_number(right[0]) ==> leading_numbers(right) == Seq::<
            Seq<char>,
        >::empty(),
{
    let words = left + seq![first, second] + right;
    assert forall|i: int| 0 <= i < words.len() implies is_token(#[trigger] words[i]) by {
        if i < left.len() {
            assert(words[i] == left[i]);
        } else if i >= left.len() + 2 {
            assert(words[i] == right[i - left.len() - 2]);
        }
    }
    lemma_tokens_of_joined(words);
    lemma_adjacent_names(left, first, second, right);
    assert(right.take(0) =~= Seq::<Seq<char>>::empty());
}

/// The items of `v`, the last one first.
pub fn reversed<T>(v: Vec<T>) -> (r: Vec<T>)
    ensures
        r@ == v@.reverse(),
{
    let ghost all = v@;
    let mut v = v;
    let mut r: Vec<T> = Vec::new();
    assert(all.take(all.len() as int) =~= all);
    assert(r@ =~= all.skip(all.len() as int).reverse());
    while v.len() > 0
        invariant
            v.len() <= all.len(),
            v@ == all.take(v.len() as int),
            r@ == all.skip(v.len() as int).reverse(),
        decreases v.len(),
    {
        let ghost done = r@;
        let item = v.pop().unwrap();
        r.push(item);
        proof {
            let k = v.len() as int;
            assert(v@ =~= all.take(k));
            assert(done.push(all[k]) =~= all.skip(k).reverse());
        }
    }
    proof {
        assert(all.skip(0) =~= all);
    }
    r
}

/// The invocations that `line` asks for, in the order in which they are made.
pub fn parse_line(line: &str) -> (plan: Vec<Invocation>)
    ensures
        plan_of(plan@) == invocations(tokens_of(line@)),
{
    let mut tokens = split_tokens(line);
    let ghost all = texts(tokens@);
    let mut plan: Vec<Invocation> = Vec::new();
    let mut stack: Vec<Number> = Vec::new();
    proof {
        assert(all.skip(all.len() as int) =~= Seq::<Seq<char>>::empty());
        assert(all.take(all.len() as int) =~= all);
        assert(plan_of(plan@) =~= invocations(all.skip(all.len() as int)));
        assert(number_texts(stack@).reverse() =~= leading_numbers(all.skip(all.len() as int)));
    }
    while tokens.len() > 0
        invariant
            tokens.len() <= all.len(),
            texts(tokens@) == all.take(tokens.len() as int),
            plan_of(plan@) == invocations(all.skip(tokens.len() as int)),
            number_texts(stack@).reverse() == leading_numbers(all.skip(tokens.len() as int)),
        decreases tokens.len(),
    {
        let ghost before = tokens@;
        let ghost made = plan@;
        let ghost held = stack@;
        let token = tokens.pop().unwrap();
        proof {
            let k = tokens.len() as int;
            assert(token@ == texts(before)[k]);
            assert(texts(tokens@) =~= all.take(k));
            assert(all.skip(k) =~= seq![all[k]] + all.skip(k + 1));
            assert(all.skip(k).drop_first() =~= all.skip(k + 1));
            lemma_leading_numbers_cons(all[k], all.skip(k + 1));
        }
        match Number::from_token(token) {
            Ok(number) => {
                stack.push(number);
                proof {
                    assert(number_texts(stack@) =~= number_texts(held).push(number@));
                    assert(number_texts(held).push(number@).reverse() =~= seq![number@]
                        + number_texts(held).reverse());
                }
            },
            Err(name) => {
                let args = reversed(stack);
                stack = Vec::new();
                proof {
                    assert(number_texts(args@) =~= number_texts(held).reverse());
                    assert(number_texts(stack@).reverse() =~= Seq::<Seq<char>>::empty());
                }
                let invocation = Invocation { name, args };
                plan.push(invocation);
                proof {
                    assert(plan_of(plan@) =~= plan_of(made).push(invocation@));
                }
            },
        }
    }
    proof {
        assert(all.skip(0) =~= all);
    }
    plan
}

} // verus!
