//! Commands, the registry that holds them by name, and the interpreter that
//! invokes them for a line.

use vstd::prelude::*;
use vstd::hash_map::StringHashMap;
use crate::number::{number_texts, Number};
use crate::parser::{invocations, parse_line, plan_of, reversed, Invocation, InvocationView};
use crate::token::tokens_of;

verus! {

/// The behaviour of a command: a stateful callback that is handed the shared
/// world, to which it has exclusive access for the length of the call, and the
/// arguments, and that may answer with numbers.
pub trait Callback: Sized {
    /// The shared world state that the callback works on.
    type World;

    /// What one call may do: how the callback and the world after it, and the
    /// reply, relate to the callback and the world before it and the
    /// arguments. An implementation that states nothing allows everything.
    open spec fn effect(
        pre: Self,
        world_pre: Self::World,
        args: Seq<Seq<char>>,
        post: Self,
        world_post: Self::World,
        reply: Option<Seq<Seq<char>>>,
    ) -> bool {
        true
    }

    fn call(&mut self, world: &mut Self::World, args: Vec<Number>) -> (reply: Option<Vec<Number>>)
        ensures
            Self::effect(
                *old(self),
                *old(world),
                number_texts(args@),
                *final(self),
                *final(world),
                reply_texts(reply),
            ),
    ;
}

/// The texts of a reply, where there is one.
pub open spec fn reply_texts(reply: Option<Vec<Number>>) -> Option<Seq<Seq<char>>> {
    match reply {
        Some(numbers) => Some(number_texts(numbers@)),
        None => None,
    }
}

/// A named unit of behaviour: it owns its callback.
pub struct Command<F: Callback> {
    cb: F,
}

impl<F: Callback> View for Command<F> {
    type V = F;

    closed spec fn view(&self) -> F {
        self.cb
    }
}

impl<F: Callback> Command<F> {
    pub fn new(f: F) -> (command: Self)
        ensures
            command@ == f,
    {
        Command { cb: f }
    }
}

/// What one invocation does to a registry and the world: a registered name has
/// its callback called with the arguments, and nothing else changes; any other
/// name changes nothing and gives no reply.
pub open spec fn invoked<F: Callback>(
    pre: Map<Seq<char>, Command<F>>,
    world_pre: F::World,
    invocation: InvocationView,
    post: Map<Seq<char>, Command<F>>,
    world_post: F::World,
    reply: Option<Seq<Seq<char>>>,
) -> bool {
    if pre.contains_key(invocation.name) {
        &&& post.contains_key(invocation.name)
        &&& post == pre.insert(invocation.name, post[invocation.name])
        &&& F::effect(
            pre[invocation.name]@,
            world_pre,
            invocation.args,
            post[invocation.name]@,
            world_post,
            reply,
        )
    } else {
        &&& post == pre
        &&& world_post == world_pre
        &&& reply is None
    }
}

/// A registry and the world at one moment, and the reply of the invocation made last.
pub struct Stage<F: Callback> {
    pub registry: Map<Seq<char>, Command<F>>,
    pub world: F::World,
    pub reply: Option<Seq<Seq<char>>>,
}

/// Whether `stages` are what the invocations of `plan` pass through: each
/// invocation leads from one stage to the next.
pub open spec fn passes_through<F: Callback>(plan: Seq<InvocationView>, stages: Seq<Stage<F>>) -> bool {
    &&& stages.len() == plan.len() + 1
    &&& forall|i: int|
        0 <= i < plan.len() ==> invoked(
            (#[trigger] stages[i]).registry,
            stages[i].world,
            plan[i],
            stages[i + 1].registry,
            stages[i + 1].world,
            stages[i + 1].reply,
        )
}

/// What a plan does: its invocations are made one after the other, each on
/// what the one before it left, and the reply is that of the last one. An
/// empty plan changes nothing and gives no reply.
pub open spec fn ran<F: Callback>(
    pre: Map<Seq<char>, Command<F>>,
    world_pre: F::World,
    plan: Seq<InvocationView>,
    post: Map<Seq<char>, Command<F>>,
    world_post: F::World,
    reply: Option<Seq<Seq<char>>>,
) -> bool {
    exists|stages: Seq<Stage<F>>|
        {
            &&& #[trigger] passes_through(plan, stages)
            &&& stages[0] == Stage::<F> { registry: pre, world: world_pre, reply: None }
            &&& stages.last() == Stage::<F> { registry: post, world: world_post, reply }
        }
}

/// An empty plan changes nothing and gives no reply.
pub proof fn lemma_ran_nothing<F: Callback>(
    pre: Map<Seq<char>, Command<F>>,
    world_pre: F::World,
    post: Map<Seq<char>, Command<F>>,
    world_post: F::World,
    reply: Option<Seq<Seq<char>>>,
)
    ensures
        ran(pre, world_pre, Seq::<InvocationView>::empty(), post, world_post, reply) <==> post
            == pre && world_post == world_pre && reply is None,
{
    let plan = Seq::<InvocationView>::empty();
    if post == pre && world_post == world_pre && reply is None {
        let stages = seq![Stage::<F> { registry: pre, world: world_pre, reply: None }];
        assert(passes_through(plan, stages));
    }
}

/// A plan of one invocation does what that invocation does.
pub proof fn lemma_ran_single<F: Callback>(
    pre: Map<Seq<char>, Command<F>>,
    world_pre: F::World,
    invocation: InvocationView,
    post: Map<Seq<char>, Command<F>>,
    world_post: F::World,
    reply: Option<Seq<Seq<char>>>,
)
    ensures
        ran(pre, world_pre, seq![invocation], post, world_post, reply) <==> invoked(
            pre,
            world_pre,
            invocation,
            post,
            world_post,
            reply,
        ),
{
    let plan = seq![invocation];
    if invoked(pre, world_pre, invocation, post, world_post, reply) {
        let stages = seq![
            Stage::<F> { registry: pre, world: world_pre, reply: None },
            Stage::<F> { registry: post, world: world_post, reply },
        ];
        assert(passes_through(plan, stages));
    }
    if ran(pre, world_pre, plan, post, world_post, reply) {
        let stages = choose|stages: Seq<Stage<F>>|
            {
                &&& #[trigger] passes_through(plan, stages)
                &&& stages[0] == Stage::<F> { registry: pre, world: world_pre, reply: None }
                &&& stages.last() == Stage::<F> { registry: post, world: world_post, reply }
            };
        assert(invoked(
            stages[0].registry,
            stages[0].world,
            plan[0],
            stages[1].registry,
            stages[1].world,
            stages[1].reply,
        ));
    }
}

/// A plan that ran, and one more invocation on what it left, is the longer plan that ran.
pub proof fn lemma_ran_one_more<F: Callback>(
    pre: Map<Seq<char>, Command<F>>,
    world_pre: F::World,
    plan: Seq<InvocationView>,
    mid: Map<Seq<char>, Command<F>>,
    world_mid: F::World,
    earlier: Option<Seq<Seq<char>>>,
    invocation: InvocationView,
    post: Map<Seq<char>, Command<F>>,
    world_post: F::World,
    reply: Option<Seq<Seq<char>>>,
)
    requires
        ran(pre, world_pre, plan, mid, world_mid, earlier),
        invoked(mid, world_mid, invocation, post, world_post, reply),
    ensures
        ran(pre, world_pre, plan.push(invocation), post, world_post, reply),
{
    let reached = choose|stages: Seq<Stage<F>>|
        {
            &&& #[trigger] passes_through(plan, stages)
            &&& stages[0] == Stage::<F> { registry: pre, world: world_pre, reply: None }
            &&& stages.last() == Stage::<F> { registry: mid, world: world_mid, reply: earlier }
        };
    let stages = reached.push(Stage::<F> { registry: post, world: world_post, reply });
    let longer = plan.push(invocation);
    assert forall|i: int| 0 <= i < longer.len() implies invoked(
        (#[trigger] stages[i]).registry,
        stages[i].world,
        longer[i],
        stages[i + 1].registry,
        stages[i + 1].world,
        stages[i + 1].reply,
    ) by {
        if i < plan.len() {
            assert(stages[i] == reached[i]);
            assert(stages[i + 1] == reached[i + 1]);
        }
    }
    assert(passes_through(longer, stages));
}

/// A plan of which no name is registered calls nothing: the registry and the
/// world stay as they were, and there is no reply.
pub proof fn lemma_unregistered_names_change_nothing<F: Callback>(
    pre: Map<Seq<char>, Command<F>>,
    world_pre: F::World,
    plan: Seq<InvocationView>,
    post: Map<Seq<char>, Command<F>>,
    world_post: F::World,
    reply: Option<Seq<Seq<char>>>,
)
    requires
        forall|i: int| 0 <= i < plan.len() ==> !pre.contains_key((#[trigger] plan[i]).name),
        ran(pre, world_pre, plan, post, world_post, reply),
    ensures
        post == pre,
        world_post == world_pre,
        reply is None,
{
    let stages = choose|stages: Seq<Stage<F>>|
        {
            &&& #[trigger] passes_through(plan, stages)
            &&& stages[0] == Stage::<F> { registry: pre, world: world_pre, reply: None }
            &&& stages.last() == Stage::<F> { registry: post, world: world_post, reply }
        };
    lemma_stages_stay::<F>(plan, stages, plan.len() as int);
}

/// Up to stage `upto`, nothing changes where no name of the plan is registered at the start.
proof fn lemma_stages_stay<F: Callback>(plan: Seq<InvocationView>, stages: Seq<Stage<F>>, upto: int)
    requires
        passes_through(plan, stages),
        0 <= upto <= plan.len(),
        stages[0].reply is None,
        forall|i: int|
            0 <= i < plan.len() ==> !stages[0].registry.contains_key((#[trigger] plan[i]).name),
    ensures
        stages[upto] == stages[0],
    decreases upto,
{
    if upto > 0 {
        lemma_stages_stay::<F>(plan, stages, upto - 1);
        let before = stages[upto - 1];
        assert(!before.registry.contains_key(plan[upto - 1].name));
        assert(invoked(
            before.registry,
            before.world,
            plan[upto - 1],
            stages[upto].registry,
            stages[upto].world,
            stages[upto].reply,
        ));
    }
}

/// A registry holds under a name what was registered there last: of a
/// command that another replaced, nothing is left.
pub proof fn lemma_replaced_command_is_gone<F: Callback>(
    registry: Map<Seq<char>, Command<F>>,
    name: Seq<char>,
    old_command: Command<F>,
    new_command: Command<F>,
)
    ensures
        registry.insert(name, old_command).insert(name, new_command) == registry.insert(
            name,
            new_command,
        ),
        registry.insert(name, old_command).insert(name, new_command)[name] == new_command,
{
    assert(registry.insert(name, old_command).insert(name, new_command) =~= registry.insert(
        name,
        new_command,
    ));
}

/// The registry of commands by name, and the interpreter of lines.
pub struct CommandExecutorInner<F: Callback> {
    slots: StringHashMap<usize>,
    commands: Vec<Command<F>>,
}

impl<F: Callback> View for CommandExecutorInner<F> {
    type V = Map<Seq<char>, Command<F>>;

    closed spec fn view(&self) -> Map<Seq<char>, Command<F>> {
        Map::new(
            |name: Seq<char>| self.slots@.contains_key(name),
            |name: Seq<char>| self.commands@[self.slots@[name] as int],
        )
    }
}

impl<F: Callback> CommandExecutorInner<F> {
    /// The registry's invariant: every name has a command of its own.
    pub closed spec fn wf(&self) -> bool {
        &&& forall|name: Seq<char>| #[trigger]
            self.slots@.contains_key(name) ==> self.slots@[name] < self.commands.len()
        &&& forall|a: Seq<char>, b: Seq<char>|
            #![trigger self.slots@[a], self.slots@[b]]
            self.slots@.contains_key(a) && self.slots@.contains_key(b) && self.slots@[a]
                == self.slots@[b] ==> a == b
    }

    /// A registry without commands.
    pub fn new() -> (executor: Self)
        ensures
            executor.wf(),
            executor@ == Map::<Seq<char>, Command<F>>::empty(),
    {
        let executor = CommandExecutorInner { slots: StringHashMap::new(), commands: Vec::new() };
        assert(executor@ =~= Map::<Seq<char>, Command<F>>::empty());
        executor
    }

    /// Registers `command` under `key`, in place of the command that was
    /// registered under it, if there was one.
    pub fn add_command(&mut self, key: String, command: Command<F>)
        requires
            old(self).wf(),
        ensures
            final(self).wf(),
            final(self)@ == old(self)@.insert(key@, command),
    {
        let found: Option<usize> = match self.slots.get(key.as_str()) {
            Some(slot) => Some(*slot),
            None => None,
        };
        match found {
            Some(slot) => {
                self.commands[slot] = command;
            },
            None => {
                let slot: usize = self.commands.len();
                self.commands.push(command);
                self.slots.insert(key, slot);
            },
        }
        assert(self@ =~= old(self)@.insert(key@, command));
    }

    /// Invokes the command registered under `key` with `arg`, with exclusive
    /// access to `world`, and hands on its reply. An unregistered name is no
    /// error: nothing is called, nothing changes and there is no reply.
    pub fn execute_command_from_parts(
        &mut self,
        world: &mut F::World,
        key: String,
        arg: Vec<Number>,
    ) -> (reply: Option<Vec<Number>>)
        requires
            old(self).wf(),
        ensures
            final(self).wf(),
            invoked(
                old(self)@,
                *old(world),
                InvocationView { name: key@, args: number_texts(arg@) },
                final(self)@,
                *final(world),
                reply_texts(reply),
            ),
            !old(self)@.contains_key(key@) ==> reply is None && final(self)@ == old(self)@
                && *final(world) == *old(world),
    {
        let found: Option<usize> = match self.slots.get(key.as_str()) {
            Some(slot) => Some(*slot),
            None => None,
        };
        match found {
            Some(slot) => {
                let command = &mut self.commands[slot];
                let reply = command.cb.call(world, arg);
                proof {
                    assert(self@ =~= old(self)@.insert(key@, self@[key@]));
                }
                reply
            },
            None => None,
        }
    }

    /// Makes the invocations of `plan`, the first one first, and hands on the
    /// reply of the last.
    pub fn execute_plan(&mut self, world: &mut F::World, plan: Vec<Invocation>) -> (reply: Option<
        Vec<Number>,
    >)
        requires
            old(self).wf(),
        ensures
            final(self).wf(),
            ran(old(self)@, *old(world), plan_of(plan@), final(self)@, *final(world), reply_texts(reply)),
    {
        let ghost all = plan_of(plan@);
        let mut todo = reversed(plan);
        let mut reply: Option<Vec<Number>> = None;
        proof {
            assert(plan_of(todo@) =~= all.reverse());
            assert(all.take(0) =~= Seq::<InvocationView>::empty());
            lemma_ran_nothing::<F>(self@, *world, self@, *world, None);
        }
        while todo.len() > 0
            invariant
                self.wf(),
                todo.len() <= all.len(),
                plan_of(todo@) == all.reverse().take(todo.len() as int),
                ran(
                    old(self)@,
                    *old(world),
                    all.take(all.len() - todo.len()),
                    self@,
                    *world,
                    reply_texts(reply),
                ),
            decreases todo.len(),
        {
            let ghost before = todo@;
            let ghost mid = self@;
            let ghost world_mid = *world;
            let ghost earlier = reply_texts(reply);
            let ghost done = all.len() - todo.len();
            let invocation = todo.pop().unwrap();
            let ghost step = invocation@;
            proof {
                assert(step == plan_of(before)[todo.len() as int]);
                assert(step == all[done]);
                assert(plan_of(todo@) =~= all.reverse().take(todo.len() as int));
            }
            reply = self.execute_command_from_parts(world, invocation.name, invocation.args);
            proof {
                assert(step == InvocationView { name: step.name, args: step.args });
                lemma_ran_one_more::<F>(
                    old(self)@,
                    *old(world),
                    all.take(done),
                    mid,
                    world_mid,
                    earlier,
                    step,
                    self@,
                    *world,
                    reply_texts(reply),
                );
                assert(all.take(done).push(step) =~= all.take(done + 1));
            }
        }
        proof {
            assert(all.take(all.len() as int) =~= all);
        }
        reply
    }

    /// Interprets one line: makes the invocations that it asks for, from its
    /// last name to its first, and hands on the reply of the last one made.
    pub fn execute_command(&mut self, world: &mut F::World, source: &str) -> (reply: Option<
        Vec<Number>,
    >)
        requires
            old(self).wf(),
        ensures
            final(self).wf(),
            ran(
                old(self)@,
                *old(world),
                invocations(tokens_of(source@)),
                final(self)@,
                *final(world),
                reply_texts(reply),
            ),
    {
        let plan = parse_line(source);
        self.execute_plan(world, plan)
    }
}

} // verus!
