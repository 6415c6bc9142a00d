//! The coroutine machine: agents take tasks from a queue and run their
//! statements one at a time; a task gives its agent up when it yields.
use vstd::prelude::*;
use std::collections::VecDeque;

use crate::coroutine::{
    push_all, push_str, signed_decimal, stmt_chars, stmt_text, AAtom, ABinOp, AExp, BExp, CoroutineCode, FnDecl,
    RelOp, Stmt,
};
use crate::number::{decimal, decimal_chars, Number};
use crate::table::Table;
use crate::text::{chars_of, string_of};

verus! {

/// The global variables and the task ids.
pub struct GlobalEnv {
    pub vars: Table<Number>,
    pub task_ids: Table<Option<usize>>,
}

/// The content of a global environment.
#[verifier::ext_equal]
pub struct EnvState {
    pub vars: Map<Seq<char>, Number>,
    pub task_ids: Map<Seq<char>, Option<usize>>,
}

impl GlobalEnv {
    pub open spec fn state(&self) -> EnvState {
        EnvState { vars: self.vars.as_map(), task_ids: self.task_ids.as_map() }
    }

    pub fn new() -> (r: GlobalEnv)
        ensures
            r.state().vars == Map::<Seq<char>, Number>::empty(),
            r.state().task_ids == Map::<Seq<char>, Option<usize>>::empty(),
    {
        GlobalEnv { vars: Table::new(), task_ids: Table::new() }
    }

    /// The value of a variable: zero where it was never set.
    pub fn get_var(&self, name: &str) -> (r: Number)
        ensures
            r == var_value(self.state(), name@),
    {
        match self.vars.get(name) {
            Some(n) => n,
            None => Number(0),
        }
    }

    pub fn set_var(&mut self, name: String, value: Number)
        ensures
            final(self).state().vars == old(self).state().vars.insert(name@, value),
            final(self).state().task_ids == old(self).state().task_ids,
    {
        self.vars.insert(name, value);
    }

    /// The task that a task id names.
    pub fn get_task_id(&self, name: &str) -> (r: Result<usize, String>)
        ensures
            match task_id_of(self.state(), name@) {
                Ok(id) => r == Ok::<usize, String>(id),
                Err(msg) => r matches Err(m) && m@ == msg,
            },
    {
        match self.task_ids.get(name) {
            Some(Some(id)) => Ok(id),
            Some(None) => {
                let mut v = chars_of("task id $");
                push_str(&mut v, name);
                push_str(&mut v, " is not initialized");
                Err(string_of(&v))
            },
            None => {
                let mut v = chars_of("unknown task id $");
                push_str(&mut v, name);
                Err(string_of(&v))
            },
        }
    }

    pub fn set_task_id(&mut self, name: String, value: usize)
        ensures
            final(self).state().task_ids == old(self).state().task_ids.insert(name@, Some(value)),
            final(self).state().vars == old(self).state().vars,
    {
        self.task_ids.insert(name, Some(value));
    }
}

pub open spec fn var_value(env: EnvState, name: Seq<char>) -> Number {
    if env.vars.contains_key(name) {
        env.vars[name]
    } else {
        Number(0)
    }
}

pub open spec fn task_id_of(env: EnvState, name: Seq<char>) -> Result<usize, Seq<char>> {
    if !env.task_ids.contains_key(name) {
        Err("unknown task id $"@ + name)
    } else {
        match env.task_ids[name] {
            Some(id) => Ok(id),
            None => Err("task id $"@ + name + " is not initialized"@),
        }
    }
}

/// The message for an arithmetic result beyond `usize::MAX`.
pub open spec fn too_large() -> Seq<char> {
    "number too large"@
}

pub open spec fn arith(op: ABinOp, a: Number, b: Number) -> Result<Number, Seq<char>> {
    match op {
        ABinOp::Add => if a.value() + b.value() > usize::MAX {
            Err(too_large())
        } else {
            Ok(Number((a.value() + b.value()) as usize))
        },
        ABinOp::Sub => Ok(
            Number(
                if a.value() >= b.value() {
                    (a.value() - b.value()) as usize
                } else {
                    0
                },
            ),
        ),
        ABinOp::Mul => if a.value() * b.value() > usize::MAX {
            Err(too_large())
        } else {
            Ok(Number((a.value() * b.value()) as usize))
        },
    }
}

/// The value of an arithmetic expression, left operand first.
pub open spec fn eval_a(env: EnvState, e: AExp) -> Result<Number, Seq<char>>
    decreases e,
{
    match e {
        AExp::Atom(AAtom::Var(name)) => Ok(var_value(env, name@)),
        AExp::Atom(AAtom::Imm(v)) => Ok(v),
        AExp::Bin { lhs, op, rhs } => match eval_a(env, *lhs) {
            Err(m) => Err(m),
            Ok(a) => match eval_a(env, *rhs) {
                Err(m) => Err(m),
                Ok(b) => arith(op, a, b),
            },
        },
    }
}

/// Arithmetic on the values of the two sides, left operand first: `+`
/// adds and `*` multiplies (failing with `number too large` past
/// `usize::MAX`), and `-` takes the right value from the left one, giving
/// zero where the right one is larger; a variable reads its value, zero
/// where it was never set, and a literal its own value. An error of either
/// side is the error of the whole.
pub proof fn law_arithmetic(env: EnvState, lhs: AExp, op: ABinOp, rhs: AExp, name: String, v: Number)
    ensures
        eval_a(env, AExp::Atom(AAtom::Var(name))) == Ok::<Number, Seq<char>>(
            if env.vars.contains_key(name@) {
                env.vars[name@]
            } else {
                Number(0)
            },
        ),
        eval_a(env, AExp::Atom(AAtom::Imm(v))) == Ok::<Number, Seq<char>>(v),
        eval_a(env, lhs) matches Ok(a) ==> eval_a(env, rhs) matches Ok(b) ==> match op {
            ABinOp::Add => if a.value() + b.value() <= usize::MAX {
                eval_a(env, AExp::Bin { lhs: Box::new(lhs), op, rhs: Box::new(rhs) }) matches Ok(r) && r.value()
                    == a.value() + b.value()
            } else {
                eval_a(env, AExp::Bin { lhs: Box::new(lhs), op, rhs: Box::new(rhs) }) == Err::<Number, Seq<char>>(
                    "number too large"@,
                )
            },
            ABinOp::Sub => eval_a(env, AExp::Bin { lhs: Box::new(lhs), op, rhs: Box::new(rhs) }) matches Ok(r)
                && r.value() + b.value() == if a.value() >= b.value() {
                a.value()
            } else {
                b.value()
            } && (a.value() < b.value() ==> r.value() == 0),
            ABinOp::Mul => if a.value() * b.value() <= usize::MAX {
                eval_a(env, AExp::Bin { lhs: Box::new(lhs), op, rhs: Box::new(rhs) }) matches Ok(r) && r.value()
                    == a.value() * b.value()
            } else {
                eval_a(env, AExp::Bin { lhs: Box::new(lhs), op, rhs: Box::new(rhs) }) == Err::<Number, Seq<char>>(
                    "number too large"@,
                )
            },
        },
        eval_a(env, lhs) matches Err(m) ==> eval_a(env, AExp::Bin { lhs: Box::new(lhs), op, rhs: Box::new(rhs) })
            == Err::<Number, Seq<char>>(m),
        eval_a(env, lhs) is Ok ==> (eval_a(env, rhs) matches Err(m) ==> eval_a(
            env,
            AExp::Bin { lhs: Box::new(lhs), op, rhs: Box::new(rhs) },
        ) == Err::<Number, Seq<char>>(m)),
{
}

/// Comparisons look at the values of both sides: `==` holds when they are
/// equal, `!=` when they differ, and `<` when the left one is strictly
/// smaller.
pub proof fn law_comparisons(env: EnvState, tasks: Seq<Seq<Frame>>, lhs: AExp, op: RelOp, rhs: AExp)
    ensures
        eval_a(env, lhs) matches Ok(a) ==> eval_a(env, rhs) matches Ok(b) ==> eval_b(
            env,
            tasks,
            BExp::Rel { lhs, op, rhs },
        ) == Ok::<bool, Seq<char>>(
            match op {
                RelOp::Eq => a.value() == b.value(),
                RelOp::Ne => a.value() != b.value(),
                RelOp::Lt => a.value() < b.value(),
            },
        ),
{
}

/// The truth of a condition; `&&` and `||` do not look at their right side
/// when the left decides.
pub open spec fn eval_b(env: EnvState, tasks: Seq<Seq<Frame>>, e: BExp) -> Result<bool, Seq<char>>
    decreases e,
{
    match e {
        BExp::Not(inner) => match eval_b(env, tasks, *inner) {
            Err(m) => Err(m),
            Ok(b) => Ok(!b),
        },
        BExp::Rel { lhs, op, rhs } => match eval_a(env, lhs) {
            Err(m) => Err(m),
            Ok(a) => match eval_a(env, rhs) {
                Err(m) => Err(m),
                Ok(b) => Ok(
                    match op {
                        RelOp::Eq => a.value() == b.value(),
                        RelOp::Ne => a.value() != b.value(),
                        RelOp::Lt => a.value() < b.value(),
                    },
                ),
            },
        },
        BExp::And(l, r) => match eval_b(env, tasks, *l) {
            Err(m) => Err(m),
            Ok(false) => Ok(false),
            Ok(true) => eval_b(env, tasks, *r),
        },
        BExp::Or(l, r) => match eval_b(env, tasks, *l) {
            Err(m) => Err(m),
            Ok(true) => Ok(true),
            Ok(false) => eval_b(env, tasks, *r),
        },
        BExp::Done(id_var) => match task_id_of(env, id_var@) {
            Err(m) => Err(m),
            Ok(id) => Ok(id < tasks.len() && tasks[id as int].len() == 0),
        },
    }
}

/// Evaluates an arithmetic expression.
pub fn eval_aexp(env: &GlobalEnv, exp: &AExp) -> (r: Result<Number, String>)
    ensures
        match eval_a(env.state(), *exp) {
            Ok(v) => r == Ok::<Number, String>(v),
            Err(m) => r matches Err(e) && e@ == m,
        },
    decreases exp,
{
    match exp {
        AExp::Atom(AAtom::Var(name)) => Ok(env.get_var(name.as_str())),
        AExp::Atom(AAtom::Imm(value)) => Ok(*value),
        AExp::Bin { lhs, op, rhs } => {
            let a = eval_aexp(env, lhs)?;
            let b = eval_aexp(env, rhs)?;
            match op {
                ABinOp::Add => match a.checked_plus(&b) {
                    Some(n) => Ok(n),
                    None => Err(String::from_str("number too large")),
                },
                ABinOp::Sub => Ok(a.monus(&b)),
                ABinOp::Mul => match a.checked_times(&b) {
                    Some(n) => Ok(n),
                    None => Err(String::from_str("number too large")),
                },
            }
        },
    }
}

/// A function activation: which function, and the statement to run next.
pub struct Frame {
    pub function: String,
    pub pc: usize,
}

pub open spec fn tasks_state(tasks: Seq<Vec<Frame>>) -> Seq<Seq<Frame>> {
    tasks.map_values(|t: Vec<Frame>| t@)
}

/// Evaluates a condition against the environment and the task stacks.
pub fn eval_bexp(env: &GlobalEnv, tasks: &Vec<Vec<Frame>>, exp: &BExp) -> (r: Result<bool, String>)
    ensures
        match eval_b(env.state(), tasks_state(tasks@), *exp) {
            Ok(v) => r == Ok::<bool, String>(v),
            Err(m) => r matches Err(e) && e@ == m,
        },
    decreases exp,
{
    match exp {
        BExp::Not(inner) => {
            let b = eval_bexp(env, tasks, inner)?;
            Ok(!b)
        },
        BExp::Rel { lhs, op, rhs } => {
            let a = eval_aexp(env, lhs)?;
            let b = eval_aexp(env, rhs)?;
            Ok(
                match op {
                    RelOp::Eq => a.as_usize() == b.as_usize(),
                    RelOp::Ne => a.as_usize() != b.as_usize(),
                    RelOp::Lt => a.less_than(&b),
                },
            )
        },
        BExp::And(l, r) => {
            let a = eval_bexp(env, tasks, l)?;
            if !a {
                return Ok(false);
            }
            eval_bexp(env, tasks, r)
        },
        BExp::Or(l, r) => {
            let a = eval_bexp(env, tasks, l)?;
            if a {
                return Ok(true);
            }
            eval_bexp(env, tasks, r)
        },
        BExp::Done(id_var) => {
            let task_id = env.get_task_id(id_var.as_str())?;
            Ok(task_id < tasks.len() && tasks[task_id].len() == 0)
        },
    }
}

/// The first function at or after position `i` with the given name.
pub open spec fn find_fn_from(fs: Seq<FnDecl>, name: Seq<char>, i: int) -> Option<int>
    decreases fs.len() - i,
{
    if i < 0 || i >= fs.len() {
        None
    } else if fs[i].name@ == name {
        Some(i)
    } else {
        find_fn_from(fs, name, i + 1)
    }
}

/// The first function of the program with the given name.
pub open spec fn find_fn(fs: Seq<FnDecl>, name: Seq<char>) -> Option<int> {
    find_fn_from(fs, name, 0)
}

pub proof fn lemma_find_fn_from(fs: Seq<FnDecl>, name: Seq<char>, i: int)
    requires
        0 <= i,
    ensures
        match find_fn_from(fs, name, i) {
            Some(k) => i <= k < fs.len() && fs[k].name@ == name && forall|j: int|
                i <= j < k ==> fs[j].name@ != name,
            None => forall|j: int| i <= j < fs.len() ==> fs[j].name@ != name,
        },
    decreases fs.len() - i,
{
    if i < fs.len() && fs[i].name@ != name {
        lemma_find_fn_from(fs, name, i + 1);
    }
}

/// Finds a function of the code by its name.
pub fn find_function(code: &CoroutineCode, name: &str) -> (r: Option<usize>)
    ensures
        r matches Some(j) ==> find_fn(code.0.functions@, name@) == Some(j as int),
        r is None ==> find_fn(code.0.functions@, name@) is None,
{
    let fs = &code.0.functions;
    let key = chars_of(name);
    let mut i: usize = 0;
    while i < fs.len()
        invariant
            0 <= i <= fs@.len(),
            fs@ == code.0.functions@,
            key@ == name@,
            find_fn(fs@, name@) == find_fn_from(fs@, name@, i as int),
        decreases fs@.len() - i,
    {
        let nm = chars_of(fs[i].name.as_str());
        if crate::text::chars_equal(&nm, &key) {
            assert(fs@[i as int].name@ == name@);
            assert(find_fn_from(fs@, name@, i as int) == Some(i as int));
            return Some(i);
        }
        i += 1;
    }
    None
}

/// The first function at or after position `i` whose name occurred before it.
pub open spec fn duplicate_from(fs: Seq<FnDecl>, i: int) -> Option<int>
    decreases fs.len() - i,
{
    if i < 0 || i >= fs.len() {
        None
    } else if find_fn(fs, fs[i].name@) != Some(i) {
        Some(i)
    } else {
        duplicate_from(fs, i + 1)
    }
}

/// What checking the functions of a program gives: the first repeated name,
/// else a missing `main`.
pub open spec fn check_functions(fs: Seq<FnDecl>) -> Result<(), Seq<char>> {
    match duplicate_from(fs, 0) {
        Some(i) => Err("duplicate function: "@ + fs[i].name@),
        None => if find_fn(fs, "main"@) is None {
            Err("missing main function"@)
        } else {
            Ok(())
        },
    }
}

/// Checks that the names of the functions are distinct and that `main` is
/// one of them.
pub fn build_function_table(code: &CoroutineCode) -> (r: Result<(), String>)
    ensures
        match check_functions(code.0.functions@) {
            Ok(()) => r is Ok,
            Err(m) => r matches Err(e) && e@ == m,
        },
{
    let fs = &code.0.functions;
    let mut i: usize = 0;
    while i < fs.len()
        invariant
            0 <= i <= fs@.len(),
            fs@ == code.0.functions@,
            duplicate_from(fs@, 0) == duplicate_from(fs@, i as int),
        decreases fs@.len() - i,
    {
        let mut k: usize = 0;
        let key = chars_of(fs[i].name.as_str());
        let ghost name = fs@[i as int].name@;
        while k < i
            invariant
                0 <= k <= i < fs@.len(),
                fs@ == code.0.functions@,
                duplicate_from(fs@, 0) == duplicate_from(fs@, i as int),
                key@ == name,
                name == fs@[i as int].name@,
                find_fn(fs@, name) == find_fn_from(fs@, name, k as int),
            decreases i - k,
        {
            let nm = chars_of(fs[k].name.as_str());
            if crate::text::chars_equal(&nm, &key) {
                assert(fs@[k as int].name@ == name);
                assert(find_fn(fs@, name) == Some(k as int));
                assert(duplicate_from(fs@, i as int) == Some(i as int));
                let mut v = chars_of("duplicate function: ");
                push_str(&mut v, fs[i].name.as_str());
                return Err(string_of(&v));
            }
            k += 1;
        }
        assert(find_fn(fs@, name) == Some(i as int));
        i += 1;
    }
    match find_function(code, "main") {
        Some(_) => Ok(()),
        None => Err(String::from_str("missing main function")),
    }
}

/// The state of a machine, beside its code.
#[verifier::ext_equal]
pub struct MachineState {
    pub env: EnvState,
    pub workers: Seq<Option<usize>>,
    pub queue: Seq<usize>,
    pub tasks: Seq<Seq<Frame>>,
}

pub struct CoroutineMachine {
    pub code: CoroutineCode,
    pub env: GlobalEnv,
    pub workers: Vec<Option<usize>>,
    pub queue: VecDeque<usize>,
    pub tasks: Vec<Vec<Frame>>,
}

pub enum StepResult {
    Continue { next: CoroutineMachine, output: String },
    Halt { output: GlobalEnv },
}

/// What one step gives: the state after it with its report, or the final
/// environment.
pub enum StepOutcome {
    Continue(MachineState, Seq<char>),
    Halt(EnvState),
}

impl CoroutineMachine {
    pub open spec fn state(&self) -> MachineState {
        MachineState {
            env: self.env.state(),
            workers: self.workers@,
            queue: self.queue@,
            tasks: tasks_state(self.tasks@),
        }
    }
}

pub open spec fn agent_prefix(agent: nat) -> Seq<char> {
    "agent "@ + decimal(agent) + ": "@
}

/// Moves the top frame of a stack by `offset` statements.
pub open spec fn shift_stack(stack: Seq<Frame>, offset: int) -> Result<Seq<Frame>, Seq<char>> {
    let frame = stack.last();
    let next = frame.pc + offset;
    if next < 0 {
        Err(
            "pc became negative in "@ + frame.function@ + ": "@ + decimal(frame.pc as nat) + " + "@
                + signed_decimal(offset),
        )
    } else {
        Ok(stack.update(stack.len() - 1, Frame { function: frame.function, pc: next as usize }))
    }
}

/// Moves the top frame of task `t` by `offset` statements.
pub open spec fn shift(tasks: Seq<Seq<Frame>>, t: int, offset: int) -> Result<
    Seq<Seq<Frame>>,
    Seq<char>,
> {
    match shift_stack(tasks[t], offset) {
        Err(m) => Err(m),
        Ok(stack) => Ok(tasks.update(t, stack)),
    }
}

/// The effect of one statement run by task `t` on behalf of `agent`.
pub open spec fn run_stmt(
    fs: Seq<FnDecl>,
    s: MachineState,
    agent: int,
    t: int,
    stmt: Stmt,
) -> Result<MachineState, Seq<char>> {
    match stmt {
        Stmt::Assign { var, expr } => match eval_a(s.env, expr) {
            Err(m) => Err(m),
            Ok(v) => match shift(s.tasks, t, 1) {
                Err(m) => Err(m),
                Ok(tasks) => Ok(
                    MachineState {
                        env: EnvState { vars: s.env.vars.insert(var@, v), ..s.env },
                        tasks,
                        ..s
                    },
                ),
            },
        },
        Stmt::IfGoto { cond, offset } => match eval_b(s.env, s.tasks, cond) {
            Err(m) => Err(m),
            Ok(b) => match shift(
                s.tasks,
                t,
                if b {
                    offset as int
                } else {
                    1
                },
            ) {
                Err(m) => Err(m),
                Ok(tasks) => Ok(MachineState { tasks, ..s }),
            },
        },
        Stmt::Goto { offset } => match shift(s.tasks, t, offset as int) {
            Err(m) => Err(m),
            Ok(tasks) => Ok(MachineState { tasks, ..s }),
        },
        Stmt::Call { name } => if find_fn(fs, name@) is None {
            Err("unknown function: "@ + name@)
        } else {
            let stack = s.tasks[t];
            let frame = stack.last();
            let stack2 = stack.update(
                stack.len() - 1,
                Frame { function: frame.function, pc: (frame.pc + 1) as usize },
            ).push(Frame { function: name, pc: 0 });
            Ok(MachineState { tasks: s.tasks.update(t, stack2), ..s })
        },
        Stmt::Run { name, id_var } => if find_fn(fs, name@) is None {
            Err("unknown function: "@ + name@)
        } else {
            let new_id = s.tasks.len();
            match shift(s.tasks, t, 1) {
                Err(m) => Err(m),
                Ok(tasks) => Ok(
                    MachineState {
                        env: EnvState {
                            task_ids: s.env.task_ids.insert(id_var@, Some(new_id as usize)),
                            ..s.env
                        },
                        tasks: tasks.push(seq![Frame { function: name, pc: 0 }]),
                        queue: s.queue.push(new_id as usize),
                        ..s
                    },
                ),
            }
        },
        Stmt::Yield => match shift(s.tasks, t, 1) {
            Err(m) => Err(m),
            Ok(tasks) => Ok(
                MachineState {
                    tasks,
                    workers: s.workers.update(agent, None),
                    queue: s.queue.push(t as usize),
                    ..s
                },
            ),
        },
    }
}

/// One step of the machine for `agent` while it runs task `t`.
pub open spec fn step_task(fs: Seq<FnDecl>, s: MachineState, agent: int, t: int) -> Result<
    StepOutcome,
    Seq<char>,
> {
    if t < s.tasks.len() && s.tasks[t].len() == 0 {
        Ok(
            StepOutcome::Continue(
                MachineState { workers: s.workers.update(agent, None), ..s },
                agent_prefix(agent as nat) + "release task "@ + decimal(t as nat),
            ),
        )
    } else if t >= s.tasks.len() {
        Err("task "@ + decimal(t as nat) + " has no current frame"@)
    } else {
        let stack = s.tasks[t];
        let frame = stack.last();
        match find_fn(fs, frame.function@) {
            None => Err("unknown function: "@ + frame.function@),
            Some(fi) => {
                let body = fs[fi].body@;
                if frame.pc == body.len() {
                    Ok(
                        StepOutcome::Continue(
                            MachineState { tasks: s.tasks.update(t, stack.drop_last()), ..s },
                            agent_prefix(agent as nat) + "return from "@ + frame.function@,
                        ),
                    )
                } else if frame.pc > body.len() {
                    Err("pc "@ + decimal(frame.pc as nat) + " out of bounds in "@ + frame.function@)
                } else {
                    let stmt = body[frame.pc as int];
                    match run_stmt(fs, s, agent, t, stmt) {
                        Err(m) => Err(m),
                        Ok(next) => Ok(
                            StepOutcome::Continue(next, agent_prefix(agent as nat) + stmt_text(stmt)),
                        ),
                    }
                }
            },
        }
    }
}

/// One step of the machine for `agent`.
pub open spec fn spec_step(fs: Seq<FnDecl>, s: MachineState, agent: int) -> Result<
    StepOutcome,
    Seq<char>,
> {
    if agent < 0 || agent >= s.workers.len() {
        Err("agent "@ + decimal(agent as nat) + " out of range"@)
    } else {
        match s.workers[agent] {
            None => {
                if s.queue.len() == 0 {
                    Ok(StepOutcome::Halt(s.env))
                } else {
                    let t = s.queue[0];
                    Ok(
                        StepOutcome::Continue(
                            MachineState {
                                workers: s.workers.update(agent, Some(t)),
                                queue: s.queue.drop_first(),
                                ..s
                            },
                            agent_prefix(agent as nat) + "dequeue task "@ + decimal(t as nat),
                        ),
                    )
                }
            },
            Some(t) => step_task(fs, s, agent, t as int),
        }
    }
}

/// How agents take tasks: an idle agent takes the task at the front of the
/// queue and the rest of the queue stays in order, the tasks and the
/// environment untouched; an idle agent facing an empty queue halts the
/// machine with its environment; an agent holding a finished task lets it
/// go; an agent that does not exist is an error.
pub proof fn law_scheduling(fs: Seq<FnDecl>, s: MachineState, agent: int)
    ensures
        !(0 <= agent < s.workers.len()) ==> spec_step(fs, s, agent) is Err,
        0 <= agent < s.workers.len() && s.workers[agent] is None && s.queue.len() > 0 ==> (spec_step(fs, s, agent)
            matches Ok(StepOutcome::Continue(n, _)) && n.workers[agent] == Some(s.queue[0]) && n.queue
            == s.queue.subrange(1, s.queue.len() as int) && n.tasks == s.tasks && n.env == s.env
            && n.workers.len() == s.workers.len() && forall|b: int|
            0 <= b < s.workers.len() && b != agent ==> #[trigger] n.workers[b] == s.workers[b]),
        0 <= agent < s.workers.len() && s.workers[agent] is None && s.queue.len() == 0 ==> spec_step(fs, s, agent)
            == Ok::<StepOutcome, Seq<char>>(StepOutcome::Halt(s.env)),
        0 <= agent < s.workers.len() && s.workers[agent] is Some && s.workers[agent]->0 < s.tasks.len()
            && s.tasks[s.workers[agent]->0 as int].len() == 0 ==> (spec_step(fs, s, agent) matches Ok(StepOutcome::Continue(n, _))
            && n.workers[agent] is None && n.queue == s.queue && n.tasks == s.tasks),
{
}

/// What a task's statements do: `yield` moves its frame past the statement,
/// frees its agent and puts the task at the back of the queue; `x <- e`
/// gives `x` the value of `e` and moves the frame one statement on, the
/// queue and the agents unchanged. (Task ids and statement positions stay
/// below `usize::MAX`.)
pub proof fn law_task_statements(fs: Seq<FnDecl>, s: MachineState, agent: int, t: int, var: String, e: AExp)
    requires
        0 <= t < s.tasks.len(),
        t < usize::MAX,
        s.tasks[t].len() > 0,
        s.tasks[t].last().pc < usize::MAX,
        0 <= agent < s.workers.len(),
    ensures
        run_stmt(fs, s, agent, t, Stmt::Yield) matches Ok(n) && n.queue == s.queue.push(t as usize)
            && n.workers == s.workers.update(agent, None) && n.tasks[t].last().pc == s.tasks[t].last().pc + 1
            && n.tasks[t].len() == s.tasks[t].len() && n.env == s.env,
        eval_a(s.env, e) matches Ok(v) ==> (run_stmt(fs, s, agent, t, Stmt::Assign { var, expr: e }) matches Ok(n)
            && var_value(n.env, var@) == v && n.tasks[t].last().pc == s.tasks[t].last().pc + 1 && n.queue
            == s.queue && n.workers == s.workers && forall|w: Seq<char>|
            w != var@ ==> #[trigger] var_value(n.env, w) == var_value(s.env, w)),
{
    let stack = s.tasks[t];
    let frame = stack.last();
    let moved = stack.update(stack.len() - 1, Frame { function: frame.function, pc: (frame.pc + 1) as usize });
    assert(shift_stack(stack, 1) == Ok::<Seq<Frame>, Seq<char>>(moved));
    assert(moved.last().pc == frame.pc + 1);
}

/// Whether the jump that the top frame of task `t` would take stays within
/// `isize`.
pub open spec fn jump_in_range(fs: Seq<FnDecl>, s: MachineState, t: int) -> bool {
    let frame = s.tasks[t].last();
    match find_fn(fs, frame.function@) {
        Some(fi) => frame.pc < fs[fi].body@.len() ==> match fs[fi].body@[frame.pc as int] {
            Stmt::Goto { offset } => frame.pc + offset <= isize::MAX,
            Stmt::IfGoto { cond, offset } => eval_b(s.env, s.tasks, cond) == Ok::<bool, Seq<char>>(
                true,
            ) ==> frame.pc + offset <= isize::MAX,
            _ => true,
        },
        None => true,
    }
}

/// What a step needs that the machine keeps: bodies fit in `isize`, and a
/// jump that is taken does not pass `isize::MAX`.
pub open spec fn step_in_range(fs: Seq<FnDecl>, s: MachineState, agent: int) -> bool {
    &&& forall|i: int| 0 <= i < fs.len() ==> #[trigger] fs[i].body@.len() < isize::MAX
    &&& (0 <= agent < s.workers.len()) ==> match s.workers[agent] {
        Some(t) => (t < s.tasks.len() && s.tasks[t as int].len() > 0) ==> jump_in_range(
            fs,
            s,
            t as int,
        ),
        None => true,
    }
}

fn agent_prefix_chars(agent: usize) -> (v: Vec<char>)
    ensures
        v@ == agent_prefix(agent as nat),
{
    let mut v = chars_of("agent ");
    push_all(&mut v, &decimal_chars(agent));
    push_str(&mut v, ": ");
    v
}


/// Each task that is queued or held by an agent is one the machine has,
/// and none is queued twice, held by two agents, or both queued and held.
pub open spec fn tasks_held_once(s: MachineState) -> bool {
    &&& forall|i: int| 0 <= i < s.queue.len() ==> #[trigger] s.queue[i] < s.tasks.len()
    &&& forall|a: int| 0 <= a < s.workers.len() ==> match #[trigger] s.workers[a] {
        Some(t) => t < s.tasks.len(),
        None => true,
    }
    &&& forall|i: int, j: int| 0 <= i < j < s.queue.len() ==> s.queue[i] != s.queue[j]
    &&& forall|a: int, b: int|
        0 <= a < s.workers.len() && 0 <= b < s.workers.len() && a != b && s.workers[a] is Some ==> s.workers[a]
            != s.workers[b]
    &&& forall|i: int, a: int| 0 <= i < s.queue.len() && 0 <= a < s.workers.len() ==> s.workers[a] != Some(s.queue[i])
}

proof fn lemma_shift_len(tasks: Seq<Seq<Frame>>, t: int, offset: int)
    requires
        0 <= t < tasks.len(),
    ensures
        shift(tasks, t, offset) matches Ok(n) ==> n.len() == tasks.len(),
{
}

proof fn lemma_run_stmt_keeps(fs: Seq<FnDecl>, s: MachineState, agent: int, t: int, stmt: Stmt)
    requires
        tasks_held_once(s),
        s.tasks.len() < usize::MAX,
        0 <= agent < s.workers.len(),
        s.workers[agent] == Some(t as usize),
        0 <= t < s.tasks.len(),
    ensures
        run_stmt(fs, s, agent, t, stmt) matches Ok(n) ==> tasks_held_once(n),
{
    lemma_shift_len(s.tasks, t, 1);
    match stmt {
        Stmt::IfGoto { cond, offset } => {
            lemma_shift_len(s.tasks, t, offset as int);
        },
        Stmt::Goto { offset } => {
            lemma_shift_len(s.tasks, t, offset as int);
        },
        Stmt::Run { name, id_var } => {
            if let Ok(n) = run_stmt(fs, s, agent, t, stmt) {
                let k = s.tasks.len();
                assert(n.queue == s.queue.push(k as usize));
                assert(n.tasks.len() == k + 1);
                assert(n.workers == s.workers);
                assert forall|i: int, j: int| 0 <= i < j < n.queue.len() implies n.queue[i] != n.queue[j] by {
                    if j == s.queue.len() {
                        assert(s.queue[i] < s.tasks.len());
                    } else {
                        assert(s.queue[i] != s.queue[j]);
                    }
                }
                assert forall|i: int, a: int| 0 <= i < n.queue.len() && 0 <= a < n.workers.len() implies n.workers[a]
                    != Some(n.queue[i]) by {
                    if i == s.queue.len() {
                        match s.workers[a] {
                            Some(u) => assert(u < k),
                            None => {},
                        }
                    } else {
                        assert(s.workers[a] != Some(s.queue[i]));
                    }
                }
                assert forall|i: int| 0 <= i < n.queue.len() implies #[trigger] n.queue[i] < n.tasks.len() by {
                    if i < s.queue.len() {
                        assert(s.queue[i] < s.tasks.len());
                    }
                }
            }
        },
        Stmt::Yield => {
            if let Ok(n) = run_stmt(fs, s, agent, t, stmt) {
                assert forall|i: int, j: int| 0 <= i < j < n.queue.len() implies n.queue[i] != n.queue[j] by {
                    if j == s.queue.len() {
                        assert(s.workers[agent] != Some(s.queue[i]));
                    }
                }
                assert forall|a: int, b: int|
                    0 <= a < n.workers.len() && 0 <= b < n.workers.len() && a != b && n.workers[a] is Some implies n.workers[a]
                        != n.workers[b] by {
                    assert(s.workers[a] != s.workers[b]);
                }
                assert forall|i: int, a: int| 0 <= i < n.queue.len() && 0 <= a < n.workers.len() implies n.workers[a]
                    != Some(n.queue[i]) by {
                    if i == s.queue.len() && a != agent {
                        assert(s.workers[agent] != s.workers[a]);
                    }
                }
            }
        },
        _ => {},
    }
}

/// A step that goes on keeps each task queued or held by one agent only.
/// With `make`, which queues task zero alone, this holds of every machine
/// that steps reach (a machine holds fewer than `usize::MAX` tasks, so the
/// id of a new task is its number).
pub proof fn law_step_keeps_tasks_held_once(fs: Seq<FnDecl>, s: MachineState, agent: int)
    requires
        tasks_held_once(s),
        s.tasks.len() < usize::MAX,
    ensures
        spec_step(fs, s, agent) matches Ok(StepOutcome::Continue(next, _)) ==> tasks_held_once(next),
{
    if 0 <= agent < s.workers.len() {
        match s.workers[agent] {
            None => {
                if s.queue.len() > 0 {
                    let q = s.queue[0];
                    let n = MachineState { workers: s.workers.update(agent, Some(q)), queue: s.queue.drop_first(), ..s };
                    assert forall|a: int, b: int|
                        0 <= a < n.workers.len() && 0 <= b < n.workers.len() && a != b && n.workers[a] is Some implies n.workers[a]
                            != n.workers[b] by {
                        if a == agent {
                            assert(s.workers[b] != Some(s.queue[0]));
                        } else if b == agent {
                            assert(s.workers[a] != Some(s.queue[0]));
                        } else {
                            assert(s.workers[a] != s.workers[b]);
                        }
                    }
                    assert forall|i: int, a: int| 0 <= i < n.queue.len() && 0 <= a < n.workers.len() implies n.workers[a]
                        != Some(n.queue[i]) by {
                        assert(s.queue[0] != s.queue[i + 1]);
                        assert(s.workers[a] != Some(s.queue[i + 1]));
                    }
                    assert forall|i: int, j: int| 0 <= i < j < n.queue.len() implies n.queue[i] != n.queue[j] by {
                        assert(s.queue[i + 1] != s.queue[j + 1]);
                    }
                    assert forall|i: int| 0 <= i < n.queue.len() implies #[trigger] n.queue[i] < n.tasks.len() by {
                        assert(s.queue[i + 1] < s.tasks.len());
                    }
                    assert(tasks_held_once(n));
                }
            },
            Some(t) => {
                let ti = t as int;
                if ti < s.tasks.len() && s.tasks[ti].len() > 0 {
                    let stack = s.tasks[ti];
                    let frame = stack.last();
                    if let Some(fi) = find_fn(fs, frame.function@) {
                        let body = fs[fi].body@;
                        if frame.pc < body.len() {
                            lemma_run_stmt_keeps(fs, s, agent, ti, body[frame.pc as int]);
                        }
                    }
                }
            },
        }
    }
}

proof fn lemma_run_stmt_grows(fs: Seq<FnDecl>, s: MachineState, agent: int, t: int, stmt: Stmt)
    requires
        0 <= t < s.tasks.len(),
    ensures
        run_stmt(fs, s, agent, t, stmt) matches Ok(n) ==> n.tasks.len() <= s.tasks.len() + 1,
{
    lemma_shift_len(s.tasks, t, 1);
    match stmt {
        Stmt::IfGoto { cond, offset } => {
            lemma_shift_len(s.tasks, t, offset as int);
        },
        Stmt::Goto { offset } => {
            lemma_shift_len(s.tasks, t, offset as int);
        },
        _ => {},
    }
}

/// A step adds at most one task.
proof fn lemma_step_grows(fs: Seq<FnDecl>, s: MachineState, agent: int)
    ensures
        spec_step(fs, s, agent) matches Ok(StepOutcome::Continue(next, _)) ==> next.tasks.len() <= s.tasks.len() + 1,
{
    if 0 <= agent < s.workers.len() {
        if let Some(t) = s.workers[agent] {
            let ti = t as int;
            if ti < s.tasks.len() && s.tasks[ti].len() > 0 {
                let frame = s.tasks[ti].last();
                if let Some(fi) = find_fn(fs, frame.function@) {
                    let body = fs[fi].body@;
                    if frame.pc < body.len() {
                        lemma_run_stmt_grows(fs, s, agent, ti, body[frame.pc as int]);
                    }
                }
            }
        }
    }
}

/// The state after the agents in `agents` step in turn, as long as each
/// step goes on.
pub open spec fn run_steps(fs: Seq<FnDecl>, s: MachineState, agents: Seq<int>) -> Option<MachineState>
    decreases agents.len(),
{
    if agents.len() == 0 {
        Some(s)
    } else {
        match spec_step(fs, s, agents[0]) {
            Ok(StepOutcome::Continue(next, _)) => run_steps(fs, next, agents.drop_first()),
            _ => None,
        }
    }
}

/// Every machine that steps reach from one whose tasks are each queued or
/// held once, such as the one `make` gives, keeps them so (while the number
/// of tasks stays below `usize::MAX`).
pub proof fn law_reachable_tasks_held_once(fs: Seq<FnDecl>, s: MachineState, agents: Seq<int>)
    requires
        tasks_held_once(s),
        s.tasks.len() + agents.len() < usize::MAX,
    ensures
        run_steps(fs, s, agents) matches Some(t) ==> tasks_held_once(t),
    decreases agents.len(),
{
    if agents.len() > 0 {
        law_step_keeps_tasks_held_once(fs, s, agents[0]);
        lemma_step_grows(fs, s, agents[0]);
        if let Ok(StepOutcome::Continue(next, _)) = spec_step(fs, s, agents[0]) {
            law_reachable_tasks_held_once(fs, next, agents.drop_first());
        }
    }
}

impl CoroutineMachine {
    /// The machine for a program and a number of agents: the main function
    /// is task zero, and is queued.
    pub fn make(code: CoroutineCode, agent_count: usize) -> (r: Result<CoroutineMachine, String>)
        ensures
            match check_functions(code.0.functions@) {
                Err(m) => r matches Err(e) && e@ == m,
                Ok(()) => if agent_count == 0 {
                    r matches Err(e) && e@ == "agent count must be positive"@
                } else {
                    r matches Ok(m) && m.code == code && m.state() == MachineState {
                        env: EnvState { vars: Map::empty(), task_ids: Map::empty() },
                        workers: Seq::new(agent_count as nat, |i: int| None::<usize>),
                        queue: seq![0usize],
                        tasks: seq![seq![Frame { function: m.tasks@[0]@[0].function, pc: 0 }]],
                    } && m.tasks@[0]@[0].function@ == "main"@
                },
            },
            r matches Ok(m) ==> tasks_held_once(m.state()),
    {
        build_function_table(&code)?;
        if agent_count == 0 {
            return Err(String::from_str("agent count must be positive"));
        }
        let mut workers: Vec<Option<usize>> = Vec::new();
        let mut i: usize = 0;
        while i < agent_count
            invariant
                0 <= i <= agent_count,
                workers@ == Seq::new(i as nat, |j: int| None::<usize>),
            decreases agent_count - i,
        {
            workers.push(None);
            i += 1;
            assert(workers@ =~= Seq::new(i as nat, |j: int| None::<usize>));
        }
        let mut queue: VecDeque<usize> = VecDeque::new();
        queue.push_back(0);
        let mut stack: Vec<Frame> = Vec::new();
        stack.push(Frame { function: String::from_str("main"), pc: 0 });
        let mut tasks: Vec<Vec<Frame>> = Vec::new();
        tasks.push(stack);
        let m = CoroutineMachine { code, env: GlobalEnv::new(), workers, queue, tasks };
        assert(m.queue@ =~= seq![0usize]);
        assert(tasks_state(m.tasks@) =~= seq![seq![Frame { function: m.tasks@[0]@[0].function, pc: 0 }]]);
        Ok(m)
    }
}

/// Moves the top frame of `stack` by `offset` statements.
fn shift_frame(stack: &mut Vec<Frame>, offset: isize) -> (r: Result<(), String>)
    requires
        old(stack)@.len() > 0,
        old(stack)@.last().pc <= isize::MAX,
        old(stack)@.last().pc + offset <= isize::MAX,
    ensures
        match shift_stack(old(stack)@, offset as int) {
            Ok(st) => r is Ok && final(stack)@ == st,
            Err(m) => r matches Err(e) && e@ == m,
        },
{
    let ghost old_stack = stack@;
    let f = stack.pop().unwrap();
    let next: isize = f.pc as isize + offset;
    if next < 0 {
        let mut v = chars_of("pc became negative in ");
        push_str(&mut v, f.function.as_str());
        push_str(&mut v, ": ");
        push_all(&mut v, &decimal_chars(f.pc));
        push_str(&mut v, " + ");
        push_all(&mut v, &crate::coroutine::signed_decimal_chars(offset));
        return Err(string_of(&v));
    }
    stack.push(Frame { function: f.function, pc: next as usize });
    assert(stack@ =~= old_stack.update(
        old_stack.len() - 1,
        Frame { function: old_stack.last().function, pc: next as usize },
    ));
    Ok(())
}

fn unknown_function(name: &str) -> (r: String)
    ensures
        r@ == "unknown function: "@ + name@,
{
    let mut v = chars_of("unknown function: ");
    push_str(&mut v, name);
    string_of(&v)
}

proof fn lemma_tasks_update(tasks: Seq<Vec<Frame>>, t: int, v: Vec<Frame>)
    requires
        0 <= t < tasks.len(),
    ensures
        tasks_state(tasks.update(t, v)) == tasks_state(tasks).update(t, v@),
{
    assert(tasks_state(tasks.update(t, v)) =~= tasks_state(tasks).update(t, v@));
}

proof fn lemma_tasks_push(tasks: Seq<Vec<Frame>>, v: Vec<Frame>)
    ensures
        tasks_state(tasks.push(v)) == tasks_state(tasks).push(v@),
{
    assert(tasks_state(tasks.push(v)) =~= tasks_state(tasks).push(v@));
}

impl CoroutineMachine {
    /// Runs the statement at the top frame of task `tid`, or returns from
    /// its function; the report is without the agent.
    fn step_task(&mut self, agent: usize, tid: usize) -> (r: Result<Vec<char>, String>)
        requires
            agent < old(self).workers@.len(),
            old(self).workers@[agent as int] == Some(tid),
            tid < old(self).tasks@.len(),
            old(self).tasks@[tid as int]@.len() > 0,
            step_in_range(old(self).code.0.functions@, old(self).state(), agent as int),
        ensures
            final(self).code == old(self).code,
            match step_task(old(self).code.0.functions@, old(self).state(), agent as int, tid as int) {
                Ok(StepOutcome::Continue(next, out)) => r matches Ok(o) && o@ == out
                    && final(self).state() == next,
                Ok(StepOutcome::Halt(_)) => false,
                Err(m) => r matches Err(e) && e@ == m,
            },
    {
        let ghost fs = self.code.0.functions@;
        let ghost s0 = self.state();
        let last = self.tasks[tid].len() - 1;
        let pc = self.tasks[tid][last].pc;
        let ghost frame = s0.tasks[tid as int].last();
        assert(frame == self.tasks@[tid as int]@[last as int]);
        let fi = match find_function(&self.code, self.tasks[tid][last].function.as_str()) {
            Some(fi) => fi,
            None => {
                return Err(unknown_function(self.tasks[tid][last].function.as_str()));
            },
        };
        proof {
            lemma_find_fn_from(fs, frame.function@, 0);
        }
        let body_len = self.code.0.functions[fi].body.len();
        if pc == body_len {
            let mut stack: Vec<Frame> = Vec::new();
            self.tasks.set_and_swap(tid, &mut stack);
            let f = stack.pop().unwrap();
            let mut out = agent_prefix_chars(agent);
            push_str(&mut out, "return from ");
            push_str(&mut out, f.function.as_str());
            let ghost put: Vec<Frame> = stack;
            self.tasks.set_and_swap(tid, &mut stack);
            proof {
                lemma_tasks_update(old(self).tasks@, tid as int, put);
                assert(put@ =~= s0.tasks[tid as int].drop_last());
                assert(self.state() =~= MachineState {
                    tasks: s0.tasks.update(tid as int, s0.tasks[tid as int].drop_last()),
                    ..s0
                });
            }
            return Ok(out);
        }
        if pc > body_len {
            let mut v = chars_of("pc ");
            push_all(&mut v, &decimal_chars(pc));
            push_str(&mut v, " out of bounds in ");
            push_str(&mut v, self.tasks[tid][last].function.as_str());
            return Err(string_of(&v));
        }
        let stmt = &self.code.0.functions[fi].body[pc];
        let mut out = agent_prefix_chars(agent);
        push_all(&mut out, &stmt_chars(stmt));
        match stmt {
            Stmt::Assign { var, expr } => {
                let value = eval_aexp(&self.env, expr)?;
                self.env.set_var(var.clone(), value);
                let mut stack: Vec<Frame> = Vec::new();
                self.tasks.set_and_swap(tid, &mut stack);
                shift_frame(&mut stack, 1)?;
                let ghost put: Vec<Frame> = stack;
                self.tasks.set_and_swap(tid, &mut stack);
                proof {
                    lemma_tasks_update(old(self).tasks@, tid as int, put);
                }
            },
            Stmt::IfGoto { cond, offset } => {
                let b = eval_bexp(&self.env, &self.tasks, cond)?;
                let delta: isize = if b {
                    *offset
                } else {
                    1
                };
                let mut stack: Vec<Frame> = Vec::new();
                self.tasks.set_and_swap(tid, &mut stack);
                shift_frame(&mut stack, delta)?;
                let ghost put: Vec<Frame> = stack;
                self.tasks.set_and_swap(tid, &mut stack);
                proof {
                    lemma_tasks_update(old(self).tasks@, tid as int, put);
                }
            },
            Stmt::Goto { offset } => {
                let mut stack: Vec<Frame> = Vec::new();
                self.tasks.set_and_swap(tid, &mut stack);
                shift_frame(&mut stack, *offset)?;
                let ghost put: Vec<Frame> = stack;
                self.tasks.set_and_swap(tid, &mut stack);
                proof {
                    lemma_tasks_update(old(self).tasks@, tid as int, put);
                }
            },
            Stmt::Call { name } => {
                if find_function(&self.code, name.as_str()).is_none() {
                    return Err(unknown_function(name.as_str()));
                }
                let mut stack: Vec<Frame> = Vec::new();
                self.tasks.set_and_swap(tid, &mut stack);
                let ghost st0 = stack@;
                let f = stack.pop().unwrap();
                stack.push(Frame { function: f.function, pc: f.pc + 1 });
                stack.push(Frame { function: name.clone(), pc: 0 });
                let ghost put: Vec<Frame> = stack;
                self.tasks.set_and_swap(tid, &mut stack);
                proof {
                    lemma_tasks_update(old(self).tasks@, tid as int, put);
                    assert(put@ =~= st0.update(
                        st0.len() - 1,
                        Frame { function: st0.last().function, pc: (st0.last().pc + 1) as usize },
                    ).push(Frame { function: *name, pc: 0 }));
                }
            },
            Stmt::Run { name, id_var } => {
                if find_function(&self.code, name.as_str()).is_none() {
                    return Err(unknown_function(name.as_str()));
                }
                let new_task_id = self.tasks.len();
                self.env.set_task_id(id_var.clone(), new_task_id);
                let mut stack: Vec<Frame> = Vec::new();
                self.tasks.set_and_swap(tid, &mut stack);
                shift_frame(&mut stack, 1)?;
                let ghost put: Vec<Frame> = stack;
                self.tasks.set_and_swap(tid, &mut stack);
                let ghost tasks1 = self.tasks@;
                let mut fresh: Vec<Frame> = Vec::new();
                fresh.push(Frame { function: name.clone(), pc: 0 });
                self.tasks.push(fresh);
                self.queue.push_back(new_task_id);
                proof {
                    lemma_tasks_update(old(self).tasks@, tid as int, put);
                    lemma_tasks_push(tasks1, fresh);
                    assert(fresh@ =~= seq![Frame { function: *name, pc: 0 }]);
                }
            },
            Stmt::Yield => {
                let mut stack: Vec<Frame> = Vec::new();
                self.tasks.set_and_swap(tid, &mut stack);
                shift_frame(&mut stack, 1)?;
                let ghost put: Vec<Frame> = stack;
                self.tasks.set_and_swap(tid, &mut stack);
                self.workers.set(agent, None);
                self.queue.push_back(tid);
                proof {
                    lemma_tasks_update(old(self).tasks@, tid as int, put);
                }
            },
        }
        proof {
            let stmt_v = fs[fi as int].body@[pc as int];
            assert(*stmt == stmt_v);
            assert(self.state() =~= run_stmt(fs, s0, agent as int, tid as int, stmt_v)->Ok_0);
        }
        Ok(out)
    }

    /// Whether a step of `agent` stays within the machine's limits: the
    /// bodies fit in `isize`, and a jump that it takes does not pass
    /// `isize::MAX`.
    pub fn step_ready(&self, agent: usize) -> (b: bool)
        ensures
            b == step_in_range(self.code.0.functions@, self.state(), agent as int),
    {
        let fs = &self.code.0.functions;
        let mut i: usize = 0;
        while i < fs.len()
            invariant
                i <= fs@.len(),
                fs@ == self.code.0.functions@,
                forall|j: int| 0 <= j < i ==> #[trigger] fs@[j].body@.len() < isize::MAX,
            decreases fs.len() - i,
        {
            if (fs[i].body.len() as i128) >= (isize::MAX as i128) {
                assert(!(fs@[i as int].body@.len() < isize::MAX));
                return false;
            }
            i = i + 1;
        }
        if agent >= self.workers.len() {
            return true;
        }
        let t = match self.workers[agent] {
            None => {
                return true;
            },
            Some(t) => t,
        };
        if t >= self.tasks.len() || self.tasks[t].len() == 0 {
            return true;
        }
        let ghost st = self.state();
        assert(st.tasks[t as int] == self.tasks@[t as int]@);
        let frame = &self.tasks[t][self.tasks[t].len() - 1];
        let fi = match find_function(&self.code, frame.function.as_str()) {
            None => {
                return true;
            },
            Some(fi) => fi,
        };
        proof {
            lemma_find_fn_from(fs@, frame.function@, 0);
        }
        let body = &self.code.0.functions[fi].body;
        if frame.pc >= body.len() {
            return true;
        }
        match &body[frame.pc] {
            Stmt::Goto { offset } => (frame.pc as i128) + (*offset as i128) <= isize::MAX as i128,
            Stmt::IfGoto { cond, offset } => {
                match eval_bexp(&self.env, &self.tasks, cond) {
                    Ok(true) => (frame.pc as i128) + (*offset as i128) <= isize::MAX as i128,
                    _ => true,
                }
            },
            _ => true,
        }
    }


    /// One step of the machine for `agent`: an idle agent takes the next
    /// queued task (or the machine halts with its environment when none is
    /// left); a busy agent releases a finished task or runs one statement of
    /// its task.
    pub fn step(self, agent: usize) -> (r: Result<StepResult, String>)
        requires
            step_in_range(self.code.0.functions@, self.state(), agent as int),
        ensures
            match spec_step(self.code.0.functions@, self.state(), agent as int) {
                Err(m) => r matches Err(e) && e@ == m,
                Ok(StepOutcome::Halt(env)) => r matches Ok(StepResult::Halt { output }) && output.state()
                    == env,
                Ok(StepOutcome::Continue(next, out)) => r matches Ok(
                    StepResult::Continue { next: n, output },
                ) && n.state() == next && n.code == self.code && output@ == out,
            },
    {
        let mut m = self;
        if agent >= m.workers.len() {
            let mut v = chars_of("agent ");
            push_all(&mut v, &decimal_chars(agent));
            push_str(&mut v, " out of range");
            return Err(string_of(&v));
        }
        let output: Vec<char>;
        match m.workers[agent] {
            None => {
                match m.queue.pop_front() {
                    None => {
                        return Ok(StepResult::Halt { output: m.env });
                    },
                    Some(task_id) => {
                        m.workers.set(agent, Some(task_id));
                        let mut v = agent_prefix_chars(agent);
                        push_str(&mut v, "dequeue task ");
                        push_all(&mut v, &decimal_chars(task_id));
                        output = v;
                    },
                }
            },
            Some(task_id) => {
                if task_id < m.tasks.len() && m.tasks[task_id].len() == 0 {
                    m.workers.set(agent, None);
                    let mut v = agent_prefix_chars(agent);
                    push_str(&mut v, "release task ");
                    push_all(&mut v, &decimal_chars(task_id));
                    output = v;
                } else if task_id >= m.tasks.len() {
                    let mut v = chars_of("task ");
                    push_all(&mut v, &decimal_chars(task_id));
                    push_str(&mut v, " has no current frame");
                    return Err(string_of(&v));
                } else {
                    output = m.step_task(agent, task_id)?;
                }
            },
        }
        Ok(StepResult::Continue { next: m, output: string_of(&output) })
    }
}

} // verus!
