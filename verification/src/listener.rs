//! The decisions of the inbound channel adapter.
//!
//! The adapter waits on two sources: notifications, which expect no answer,
//! and queries, each of which is owed exactly one reply. Waiting and sending
//! are the caller's; what to do with a payload that came in is decided here.

use vstd::prelude::*;
use crate::command::{lemma_ran_nothing, ran, reply_texts, Callback, CommandExecutorInner};
use crate::number::{number_texts, Number};
use crate::parser::invocations;
use crate::payload::{decode_payload, payload_text};
use crate::token::tokens_of;

verus! {

/// The line that a payload stands for: its text, or the empty line where it
/// is absent or carries no text.
pub open spec fn line_of(payload: Option<Seq<u8>>) -> Seq<char> {
    match payload {
        Some(bytes) => match payload_text(bytes) {
            Some(text) => text,
            None => Seq::<char>::empty(),
        },
        None => Seq::<char>::empty(),
    }
}

/// The bytes of a payload, where there is one.
pub open spec fn bytes_of(payload: Option<&Vec<u8>>) -> Option<Seq<u8>> {
    match payload {
        Some(bytes) => Some(bytes@),
        None => None,
    }
}

/// The reply of a query: the interpreter's, or the empty sequence where it has none.
pub open spec fn reply_or_empty(reply: Option<Seq<Seq<char>>>) -> Seq<Seq<char>> {
    match reply {
        Some(numbers) => numbers,
        None => Seq::<Seq<char>>::empty(),
    }
}

/// The adapter for one channel, named by its key expression.
pub struct CommandListener {
    key_expr: String,
}

impl CommandListener {
    pub closed spec fn spec_key_expr(&self) -> Seq<char> {
        self.key_expr@
    }

    pub fn new(key_expr: String) -> (listener: Self)
        ensures
            listener.spec_key_expr() == key_expr@,
    {
        CommandListener { key_expr }
    }

    /// The key expression on which to subscribe and to answer queries.
    pub fn key_expr(&self) -> (key_expr: &str)
        ensures
            key_expr@ == self.spec_key_expr(),
    {
        self.key_expr.as_str()
    }

    /// Interprets the line of a payload, where it has one that is not empty.
    fn interpret<F: Callback>(
        executor: &mut CommandExecutorInner<F>,
        world: &mut F::World,
        payload: Option<&Vec<u8>>,
    ) -> (reply: Option<Vec<Number>>)
        requires
            old(executor).wf(),
        ensures
            final(executor).wf(),
            ran(
                old(executor)@,
                *old(world),
                invocations(tokens_of(line_of(bytes_of(payload)))),
                final(executor)@,
                *final(world),
                reply_texts(reply),
            ),
            line_of(bytes_of(payload)).len() == 0 ==> reply is None && final(executor)@ == old(
                executor,
            )@ && *final(world) == *old(world),
    {
        let text: Option<String> = match payload {
            Some(bytes) => decode_payload(bytes),
            None => None,
        };
        match text {
            Some(line) => {
                if line.as_str().unicode_len() > 0 {
                    return executor.execute_command(world, line.as_str());
                }
            },
            None => {},
        }
        proof {
            assert(line_of(bytes_of(payload)) =~= Seq::<char>::empty());
            lemma_ran_nothing::<F>(executor@, *world, executor@, *world, None);
        }
        None
    }

    /// A notification came in: its line is interpreted, and the reply dropped.
    pub fn on_notification<F: Callback>(
        &self,
        executor: &mut CommandExecutorInner<F>,
        world: &mut F::World,
        payload: &Vec<u8>,
    )
        requires
            old(executor).wf(),
        ensures
            final(executor).wf(),
            exists|reply: Option<Seq<Seq<char>>>|
                ran(
                    old(executor)@,
                    *old(world),
                    invocations(tokens_of(line_of(Some(payload@)))),
                    final(executor)@,
                    *final(world),
                    reply,
                ),
    {
        let reply = Self::interpret(executor, world, Some(payload));
        assert(ran(
            old(executor)@,
            *old(world),
            invocations(tokens_of(line_of(Some(payload@)))),
            executor@,
            *world,
            reply_texts(reply),
        ));
    }

    /// A query came in: its line is interpreted, and the one reply that the
    /// query is owed is the interpreter's, or the empty sequence where it has
    /// none. An absent payload, and one without text, is the empty line: it
    /// calls nothing and is answered with the empty sequence.
    pub fn on_query<F: Callback>(
        &self,
        executor: &mut CommandExecutorInner<F>,
        world: &mut F::World,
        payload: Option<&Vec<u8>>,
    ) -> (reply: Vec<Number>)
        requires
            old(executor).wf(),
        ensures
            final(executor).wf(),
            exists|answer: Option<Seq<Seq<char>>>|
                #![trigger reply_or_empty(answer)]
                ran(
                    old(executor)@,
                    *old(world),
                    invocations(tokens_of(line_of(bytes_of(payload)))),
                    final(executor)@,
                    *final(world),
                    answer,
                ) && number_texts(reply@) == reply_or_empty(answer),
            line_of(bytes_of(payload)).len() == 0 ==> reply@.len() == 0 && final(executor)@ == old(
                executor,
            )@ && *final(world) == *old(world),
    {
        let answer = Self::interpret(executor, world, payload);
        let ghost given = reply_texts(answer);
        let reply = match answer {
            Some(numbers) => numbers,
            None => Vec::new(),
        };
        proof {
            assert(number_texts(reply@) =~= reply_or_empty(given));
        }
        reply
    }
}

} // verus!
