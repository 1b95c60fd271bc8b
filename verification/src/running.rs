//! Stack discipline at run time.
//!
//! A machine is in order if every function in it is disciplined and the
//! stack of the running function is as high as the heights of its code
//! say at the instruction that comes next. A machine in order stays in
//! order, whatever it runs into.

use vstd::prelude::*;
use crate::bytecode::{function_view, lemma_op_views, op_view, ConstView, FunctionView, OpView};
use crate::emitter::{c_function, c_program, c_stmts, Emitter};
use crate::heights::{
    boundaries, callable, disciplined, edge_ok, enough, entry_height, in_step,
    lemma_function_in_step, lemma_program_in_step, level_stmts, loads_disciplined, marked_stmts,
    tidy_stmts,
};
use crate::stmt::StmtView;
use crate::token::TokenView;
use crate::opcode::OpCode;
use crate::types::{FuncType, Function, LiteralView};
use crate::vm::{CallFrame, Machine, SupplyView};

verus! {

/// Whether `labels` gives the code of every disciplined function
/// heights with which it is in step, from the height with which the
/// function is entered.
pub open spec fn labels_valid(labels: spec_fn(FunctionView) -> Seq<int>) -> bool {
    forall|function: FunctionView|
        disciplined(function) ==> in_step(function.codes, #[trigger] labels(function)) && labels(
            function,
        )[0] == entry_height(function)
}

/// Heights with which the code of a disciplined function is in step.
pub open spec fn chosen(function: FunctionView) -> Seq<int> {
    choose|at: Seq<int>| #[trigger] in_step(function.codes, at) && at[0] == entry_height(function)
}

/// The heights that `chosen` gives are valid.
pub proof fn lemma_chosen_valid()
    ensures
        labels_valid(|function: FunctionView| chosen(function)),
{
    let labels = |function: FunctionView| chosen(function);
    assert forall|function: FunctionView| disciplined(function) implies in_step(
        function.codes,
        #[trigger] labels(function),
    ) && labels(function)[0] == entry_height(function) by {
        let at = choose|at: Seq<int>| #[trigger]
            in_step(function.codes, at) && at[0] == entry_height(function);
        assert(labels(function) == at);
    }
}

/// Whether a value may lie on the stack or in a global: a function must
/// be one that can be called.
pub open spec fn good(value: LiteralView) -> bool {
    match value {
        LiteralView::Function(function) => callable(function_view(*function)),
        _ => true,
    }
}

/// The function of a frame, as a value.
pub open spec fn code_of(frame: CallFrame) -> FunctionView {
    function_view(*frame.function)
}

/// Whether a frame is sound: its function is disciplined, the program at
/// the bottom and functions that can be called above it, and its next
/// instruction lies in the code or at its end.
pub open spec fn frame_ok(frame: CallFrame, bottom: bool) -> bool {
    let function = code_of(frame);
    &&& disciplined(function)
    &&& bottom == (function.func_type == FuncType::Main)
    &&& frame.ip <= function.codes.len()
}

/// Whether the frame at `k` waits for the frame above it in the way a
/// caller waits for its callee: its last instruction was a call, and the
/// callee lies on the stack where the call found it, under its arguments.
pub open spec fn waits(machine: Machine, k: int, labels: spec_fn(FunctionView) -> Seq<int>) -> bool {
    let caller = machine.frames[k];
    let callee = machine.frames[k + 1];
    let function = code_of(caller);
    &&& caller.ip >= 1
    &&& function.codes[caller.ip - 1] is Call
    &&& callee.slot + function.codes[caller.ip - 1]->Call_0 + 1 == caller.slot + labels(
        function,
    )[caller.ip - 1]
    &&& caller.slot <= callee.slot
}

/// Whether the machine is in order: its frames are sound, each waits for
/// the one above it, the stack of the running function is as high as the
/// heights of its code say, and every function that a value on the stack
/// of the program or a global holds can be called.
pub open spec fn in_order(machine: Machine, labels: spec_fn(FunctionView) -> Seq<int>) -> bool {
    &&& forall|k: int|
        0 <= k < machine.frames.len() ==> frame_ok(#[trigger] machine.frames[k], k == 0)
    &&& forall|k: int| 0 <= k < machine.frames.len() - 1 ==> #[trigger] waits(machine, k, labels)
    &&& machine.frames.len() > 0 ==> machine.stack.len() == machine.frames.last().slot + labels(
        code_of(machine.frames.last()),
    )[machine.frames.last().ip as int]
    &&& forall|i: int|
        machine.frames.len() > 0 && machine.frames[0].slot <= i < machine.stack.len() ==> good(
            #[trigger] machine.stack[i],
        )
    &&& forall|name: Seq<char>|
        machine.globals.dom().contains(name) ==> good(#[trigger] machine.globals[name])
}

/// Whether a machine that went from `before` to `after` stayed in order,
/// under any valid heights under which it was in order.
pub open spec fn keeps_order(before: Machine, after: Machine) -> bool {
    forall|labels: spec_fn(FunctionView) -> Seq<int>|
        labels_valid(labels) && #[trigger] in_order(before, labels) ==> in_order(after, labels)
}

/// Whether a machine that went from `before` to `after` by starting
/// `function` is in order: it is, under any valid heights under which it
/// was in order, if it had no frames and the function is a disciplined
/// program.
pub open spec fn starts_in_order(before: Machine, function: Function, after: Machine) -> bool {
    before.frames.len() == 0 && disciplined(function_view(function)) && function.func_type
        == FuncType::Main ==> keeps_order(before, after)
}

/// A function that disciplined code loads can be called.
pub proof fn lemma_loaded_callable(codes: Seq<OpView>, n: int, i: int)
    requires
        loads_disciplined(codes, n),
        0 <= i < n <= codes.len(),
    ensures
        codes[i] matches OpView::Load(ConstView::Function(inner)) ==> callable(inner),
    decreases n,
{
    if i < n - 1 {
        lemma_loaded_callable(codes, n - 1, i);
    }
}

/// The bottom frame lies lowest.
proof fn lemma_slots_rise(machine: Machine, labels: spec_fn(FunctionView) -> Seq<int>, k: int)
    requires
        in_order(machine, labels),
        0 <= k < machine.frames.len(),
    ensures
        machine.frames[0].slot <= machine.frames[k].slot,
    decreases k,
{
    if k > 0 {
        lemma_slots_rise(machine, labels, k - 1);
        assert(waits(machine, k - 1, labels));
    }
}

/// What is known of the running frame of a machine in order, with the
/// instruction that comes next.
pub open spec fn running(machine: Machine, labels: spec_fn(FunctionView) -> Seq<int>, code: OpCode) -> bool {
    let top = machine.frames.last();
    let function = code_of(top);
    let at = labels(function);
    let i = top.ip as int;
    &&& machine.frames.len() > 0
    &&& machine.fetch() == Some(code)
    &&& function.codes.len() == top.function.chunk.codes@.len()
    &&& function.codes.len() <= usize::MAX
    &&& i < function.codes.len()
    &&& function.codes[i] == op_view(code)
    &&& at.len() == function.codes.len() + 1
    &&& at[i] >= 0
    &&& at[i + 1] >= 0
    &&& edge_ok(function.codes, at, i)
    &&& enough(function.codes, at, i)
    &&& machine.stack.len() == top.slot + at[i]
    &&& machine.frames[0].slot <= top.slot
    &&& (code matches OpCode::Load(value) ==> good(value@))
    &&& forall|j: int| 0 <= j < at.len() ==> #[trigger] at[j] >= 0
}

/// A machine in order that has an instruction to run knows its running
/// frame.
proof fn lemma_running(machine: Machine, labels: spec_fn(FunctionView) -> Seq<int>)
    requires
        labels_valid(labels),
        in_order(machine, labels),
        machine.fetch() is Some,
    ensures
        running(machine, labels, machine.fetch()->0),
{
    let top = machine.frames.last();
    let function = code_of(top);
    let at = labels(function);
    let i = top.ip as int;
    let codes = top.function.chunk.codes;
    assert(frame_ok(machine.frames[machine.frames.len() - 1], machine.frames.len() - 1 == 0));
    lemma_op_views(codes@, codes@.len() as int);
    assert(codes@.len() == codes.len());
    assert(in_step(function.codes, at));
    assert(edge_ok(function.codes, at, i));
    assert(enough(function.codes, at, i));
    lemma_slots_rise(machine, labels, machine.frames.len() - 1);
    lemma_loaded_callable(function.codes, function.codes.len() as int, i);
}

/// In a machine in order the operands of the instruction that comes next
/// lie on the stack of the running function: no instruction takes a value
/// from under the slot of its function.
pub proof fn lemma_operands_are_there(machine: Machine, labels: spec_fn(FunctionView) -> Seq<int>)
    requires
        labels_valid(labels),
        in_order(machine, labels),
        machine.fetch() is Some,
    ensures
        machine.stack.len() >= machine.frames.last().slot + crate::heights::needs(
            op_view(machine.fetch()->0),
        ),
{
    lemma_running(machine, labels);
}

/// The machine with the running frame at another instruction, and with
/// another stack and other globals, is in order if the stack is as high
/// as the heights say there and the values are good.
proof fn lemma_moved(
    machine: Machine,
    labels: spec_fn(FunctionView) -> Seq<int>,
    ip: int,
    after: Machine,
)
    requires
        in_order(machine, labels),
        machine.frames.len() > 0,
        0 <= ip <= code_of(machine.frames.last()).codes.len(),
        ip <= usize::MAX,
        after.frames == machine.jumped(ip).frames,
        after.stack.len() == machine.frames.last().slot + labels(
            code_of(machine.frames.last()),
        )[ip],
        forall|i: int|
            machine.frames[0].slot <= i < after.stack.len() ==> good(#[trigger] after.stack[i]),
        forall|name: Seq<char>|
            after.globals.dom().contains(name) ==> good(#[trigger] after.globals[name]),
    ensures
        in_order(after, labels),
{
    let last = machine.frames.len() - 1;
    assert forall|k: int| 0 <= k < after.frames.len() implies frame_ok(
        #[trigger] after.frames[k],
        k == 0,
    ) by {
        assert(frame_ok(machine.frames[k], k == 0));
    }
    assert forall|k: int| 0 <= k < after.frames.len() - 1 implies #[trigger] waits(
        after,
        k,
        labels,
    ) by {
        assert(waits(machine, k, labels));
    }
}


/// A call in a machine in order: the callee is entered with the stack as
/// high as its code asks at its start, and the caller waits for it.
proof fn lemma_called(
    machine: Machine,
    supply: SupplyView,
    labels: spec_fn(FunctionView) -> Seq<int>,
    argc: usize,
)
    requires
        labels_valid(labels),
        in_order(machine, labels),
        machine.stack.len() <= usize::MAX,
        running(machine, labels, OpCode::Call(argc)),
        machine.step(supply).result is Ok,
        machine.step(supply).result != Ok::<crate::vm::EffectView, crate::error::ErrorView>(
            crate::vm::EffectView::Halt,
        ),
    ensures
        in_order(machine.step(supply).machine, labels),
{
    let after = machine.step(supply).machine;
    let top = machine.frames.last();
    let last = machine.frames.len() - 1;
    let index = machine.stack.len() - argc - 1;
    assert(after == machine.op_call(argc).machine);
    assert(index >= top.slot);
    assert(good(machine.stack[index]));
    let callee = machine.stack[index]->Function_0;
    let entered = CallFrame { function: callee, ip: 0, slot: index as usize };
    assert(after.frames == machine.advanced().frames.push(entered));
    assert(code_of(entered) == function_view(*callee));
    assert(in_step(code_of(entered).codes, labels(code_of(entered))));
    assert forall|k: int| 0 <= k < after.frames.len() implies frame_ok(
        #[trigger] after.frames[k],
        k == 0,
    ) by {
        if k <= last {
            assert(frame_ok(machine.frames[k], k == 0));
        }
    }
    assert forall|k: int| 0 <= k < after.frames.len() - 1 implies #[trigger] waits(
        after,
        k,
        labels,
    ) by {
        if k < last {
            assert(waits(machine, k, labels));
        }
    }
}

/// A return in a machine in order: the caller goes on with the stack as
/// high as its code asks behind the call.
proof fn lemma_returned(machine: Machine, supply: SupplyView, labels: spec_fn(FunctionView) -> Seq<int>)
    requires
        labels_valid(labels),
        in_order(machine, labels),
        running(machine, labels, OpCode::Return),
        machine.step(supply).result is Ok,
        machine.step(supply).result != Ok::<crate::vm::EffectView, crate::error::ErrorView>(
            crate::vm::EffectView::Halt,
        ),
    ensures
        in_order(machine.step(supply).machine, labels),
{
    let after = machine.step(supply).machine;
    let last = machine.frames.len() - 1;
    let caller = machine.frames[last - 1];
    assert(after == machine.op_return().machine);
    assert(machine.frames.len() >= 2);
    assert(after.frames == machine.frames.drop_last());
    assert(waits(machine, last - 1, labels));
    assert(frame_ok(machine.frames[last - 1], last - 1 == 0));
    let function = code_of(caller);
    let at = labels(function);
    assert(in_step(function.codes, at));
    lemma_op_views(caller.function.chunk.codes@, caller.function.chunk.codes@.len() as int);
    assert(caller.function.chunk.codes@.len() == caller.function.chunk.codes.len());
    assert(edge_ok(function.codes, at, caller.ip - 1));
    lemma_slots_rise(machine, labels, last - 1);
    assert forall|k: int| 0 <= k < after.frames.len() implies frame_ok(
        #[trigger] after.frames[k],
        k == 0,
    ) by {
        assert(frame_ok(machine.frames[k], k == 0));
    }
    assert forall|k: int| 0 <= k < after.frames.len() - 1 implies #[trigger] waits(
        after,
        k,
        labels,
    ) by {
        assert(waits(machine, k, labels));
    }
}

/// A machine in order stays in order: whatever the next instruction is,
/// and whether it goes through, fails or ends the program, behind it the
/// frames are sound and the stack of the running function is as high as
/// the heights of its code say.
pub proof fn lemma_step_keeps_order(
    machine: Machine,
    supply: SupplyView,
    labels: spec_fn(FunctionView) -> Seq<int>,
)
    requires
        labels_valid(labels),
        in_order(machine, labels),
        machine.stack.len() <= usize::MAX,
    ensures
        in_order(machine.step(supply).machine, labels),
{
    let outcome = machine.step(supply);
    let after = outcome.machine;
    if machine.fetch() is None {
        assert(after == machine.stopped());
    } else {
        let code = machine.fetch()->0;
        lemma_running(machine, labels);
        if outcome.result is Err || outcome.result == Ok::<
            crate::vm::EffectView,
            crate::error::ErrorView,
        >(crate::vm::EffectView::Halt) {
            assert(after == machine.stopped());
        } else {
            match code {
                OpCode::Return => {
                    lemma_returned(machine, supply, labels);
                },
                OpCode::Call(argc) => {
                    lemma_called(machine, supply, labels, argc);
                },
                _ => {
                    lemma_plain_step(machine, supply, labels, code);
                },
            }
        }
    }
}

/// An instruction that neither calls nor returns, in a machine in order.
proof fn lemma_plain_step(
    machine: Machine,
    supply: SupplyView,
    labels: spec_fn(FunctionView) -> Seq<int>,
    code: OpCode,
)
    requires
        labels_valid(labels),
        in_order(machine, labels),
        running(machine, labels, code),
        !(code is Return),
        !(code is Call),
        machine.step(supply).result is Ok,
        machine.step(supply).result != Ok::<crate::vm::EffectView, crate::error::ErrorView>(
            crate::vm::EffectView::Halt,
        ),
    ensures
        in_order(machine.step(supply).machine, labels),
{
    let after = machine.step(supply).machine;
    let ip = after.frames.last().ip as int;
    assert(after.frames == machine.jumped(ip).frames);
    lemma_moved(machine, labels, ip, after);
}


/// A machine without frames whose globals are good, made ready to run a
/// disciplined program, is in order.
pub proof fn lemma_loaded_in_order(
    machine: Machine,
    function: Function,
    labels: spec_fn(FunctionView) -> Seq<int>,
)
    requires
        labels_valid(labels),
        in_order(machine, labels),
        machine.frames.len() == 0,
        machine.stack.len() < usize::MAX,
        disciplined(function_view(function)),
        function.func_type == FuncType::Main,
    ensures
        in_order(machine.loaded(function), labels),
{
    let after = machine.loaded(function);
    lemma_op_views(function.chunk.codes@, function.chunk.codes@.len() as int);
    assert(code_of(after.frames[0]) == function_view(function));
    assert forall|k: int| 0 <= k < after.frames.len() implies frame_ok(
        #[trigger] after.frames[k],
        k == 0,
    ) by {}
}

/// The heights of `labels`, but for the function `target`, which gets
/// the heights `at`.
pub open spec fn relabelled(
    labels: spec_fn(FunctionView) -> Seq<int>,
    target: FunctionView,
    at: Seq<int>,
) -> spec_fn(FunctionView) -> Seq<int> {
    |function: FunctionView|
        if function == target {
            at
        } else {
            labels(function)
        }
}

/// Whether the running function of the machine is `function`, about to
/// run the instruction at `ip`.
pub open spec fn stands_at(machine: Machine, function: FunctionView, ip: int) -> bool {
    &&& machine.frames.len() > 0
    &&& code_of(machine.frames.last()) == function
    &&& machine.frames.last().ip == ip
}

/// Whether the running function of the machine is `function`, compiled
/// from `stmts` behind `emitter`, and stands between its statements:
/// behind the first `n` of them.
pub open spec fn between(
    machine: Machine,
    function: FunctionView,
    stmts: Seq<StmtView>,
    n: int,
    emitter: Emitter,
) -> bool {
    &&& 0 <= n <= stmts.len()
    &&& c_stmts(stmts, n, emitter) is Ok
    &&& stands_at(machine, function, c_stmts(stmts, n, emitter)->Ok_0.codes.len() as int)
}

/// How many locals there are behind the first `n` of the statements.
pub open spec fn locals_behind(stmts: Seq<StmtView>, n: int, emitter: Emitter) -> int {
    c_stmts(stmts, n, emitter)->Ok_0.scopes.variables.len() as int
}

/// The emitter in front of the body of a function.
pub open spec fn in_front(
    name: Seq<char>,
    params: Seq<TokenView>,
    func_type: FuncType,
    lambdas: usize,
) -> Emitter {
    Emitter::started(name, func_type, lambdas).declare_all(params, params.len() as int)->Ok_0
}

/// Whether the running function of the machine is `function`, compiled
/// from `stmts` behind `emitter`, and stands at a place in front of or
/// behind one of the statements, or a statement that one of them holds,
/// where there are `locals` locals.
pub open spec fn at_place(
    machine: Machine,
    function: FunctionView,
    stmts: Seq<StmtView>,
    emitter: Emitter,
    locals: int,
) -> bool {
    &&& machine.frames.len() > 0
    &&& code_of(machine.frames.last()) == function
    &&& marked_stmts(
        stmts,
        stmts.len() as int,
        emitter,
        machine.frames.last().ip as int,
        locals,
    )
}

/// While a function compiled from tidy statements runs in a machine in
/// order, then in front of and behind every statement of its body, and
/// every statement that one of them holds, the stack above the slot of
/// the function is as high as there are locals at that place: the
/// statements in front of it have left nothing on the stack but the
/// locals that they declared and that are still in scope. The heights
/// under which the machine is in order are returned; they are valid.
pub proof fn lemma_stack_holds_the_locals(
    name: Seq<char>,
    params: Seq<TokenView>,
    body: Seq<StmtView>,
    func_type: FuncType,
    lambdas: usize,
) -> (labels: spec_fn(FunctionView) -> Seq<int>)
    requires
        params.len() <= usize::MAX,
        func_type == FuncType::Main ==> params.len() == 0,
        tidy_stmts(body, body.len() as int, false),
        c_function(name, params, body, func_type, lambdas) is Ok,
    ensures
        labels_valid(labels),
        forall|machine: Machine, locals: int|
            in_order(machine, labels) && #[trigger] at_place(
                machine,
                c_function(name, params, body, func_type, lambdas)->Ok_0.0,
                body,
                in_front(name, params, func_type, lambdas),
                locals,
            ) ==> machine.stack.len() == machine.frames.last().slot + locals,
        forall|machine: Machine, n: int|
            in_order(machine, labels) && #[trigger] between(
                machine,
                c_function(name, params, body, func_type, lambdas)->Ok_0.0,
                body,
                n,
                in_front(name, params, func_type, lambdas),
            ) ==> machine.stack.len() == machine.frames.last().slot + locals_behind(
                body,
                n,
                in_front(name, params, func_type, lambdas),
            ),
{
    let at = lemma_function_in_step(name, params, body, func_type, lambdas);
    let target = c_function(name, params, body, func_type, lambdas)->Ok_0.0;
    let declared = in_front(name, params, func_type, lambdas);
    lemma_chosen_valid();
    let standard = |function: FunctionView| chosen(function);
    let labels = relabelled(standard, target, at);
    assert forall|function: FunctionView| disciplined(function) implies in_step(
        function.codes,
        #[trigger] labels(function),
    ) && labels(function)[0] == entry_height(function) by {
        if function != target {
            assert(labels(function) == standard(function));
        }
    }
    assert forall|machine: Machine, locals: int|
        in_order(machine, labels) && #[trigger] at_place(
            machine,
            target,
            body,
            declared,
            locals,
        ) implies machine.stack.len() == machine.frames.last().slot + locals by {
        assert(level_stmts(body, body.len() as int, declared, at));
        assert(labels(target) == at);
    }
    assert forall|machine: Machine, n: int|
        in_order(machine, labels) && #[trigger] between(
            machine,
            target,
            body,
            n,
            declared,
        ) implies machine.stack.len() == machine.frames.last().slot + locals_behind(
        body,
        n,
        declared,
    ) by {
        assert(boundaries(body, body.len() as int, declared, at));
        assert(labels(target) == at);
    }
    labels
}

/// While a program compiled from tidy statements runs in a machine in
/// order, the stack of the program is empty between any two of its
/// statements, in front of the first and behind the last; and in front of
/// and behind every statement that one of them holds it is as high as
/// there are locals at that place.
pub proof fn lemma_program_leaves_nothing(stmts: Seq<StmtView>) -> (labels: spec_fn(FunctionView) -> Seq<
    int,
>)
    requires
        tidy_stmts(stmts, stmts.len() as int, false),
        c_program(stmts) is Ok,
    ensures
        labels_valid(labels),
        forall|machine: Machine, n: int|
            in_order(machine, labels) && #[trigger] between(
                machine,
                c_program(stmts)->Ok_0,
                stmts,
                n,
                Emitter::started("__main__"@, FuncType::Main, 0),
            ) ==> machine.stack.len() == machine.frames.last().slot,
        forall|machine: Machine, locals: int|
            in_order(machine, labels) && #[trigger] at_place(
                machine,
                c_program(stmts)->Ok_0,
                stmts,
                Emitter::started("__main__"@, FuncType::Main, 0),
                locals,
            ) ==> machine.stack.len() == machine.frames.last().slot + locals,
{
    let at = lemma_program_in_step(stmts);
    let target = c_program(stmts)->Ok_0;
    let started = Emitter::started("__main__"@, FuncType::Main, 0);
    lemma_chosen_valid();
    let standard = |function: FunctionView| chosen(function);
    let labels = relabelled(standard, target, at);
    assert forall|function: FunctionView| disciplined(function) implies in_step(
        function.codes,
        #[trigger] labels(function),
    ) && labels(function)[0] == entry_height(function) by {
        if function != target {
            assert(labels(function) == standard(function));
        }
    }
    assert forall|machine: Machine, n: int|
        in_order(machine, labels) && #[trigger] between(
            machine,
            target,
            stmts,
            n,
            started,
        ) implies machine.stack.len() == machine.frames.last().slot by {
        assert(boundaries(stmts, stmts.len() as int, started, at));
        assert(labels(target) == at);
        crate::discipline::lemma_statements_grow_table(stmts, n, started);
        lemma_top_declares_nothing(stmts, n);
        assert(started.scopes.variables + crate::discipline::declared_all(stmts, n, 0)
            =~= started.scopes.variables);
    }
    assert forall|machine: Machine, locals: int|
        in_order(machine, labels) && #[trigger] at_place(
            machine,
            target,
            stmts,
            started,
            locals,
        ) implies machine.stack.len() == machine.frames.last().slot + locals by {
        assert(level_stmts(stmts, stmts.len() as int, started, at));
        assert(labels(target) == at);
    }
    labels
}

/// At the top of a program no statement declares a local.
proof fn lemma_top_declares_nothing(stmts: Seq<StmtView>, n: int)
    ensures
        crate::discipline::declared_all(stmts, n, 0).len() == 0,
    decreases stmts, n,
{
    if 0 < n <= stmts.len() {
        lemma_top_declares_nothing(stmts, n - 1);
        lemma_top_statement_declares_nothing(stmts[n - 1]);
    }
}

/// At the top of a program a statement declares no local.
proof fn lemma_top_statement_declares_nothing(stmt: StmtView)
    ensures
        crate::discipline::declared(stmt, 0).len() == 0,
    decreases stmt, 0nat,
{
    match stmt {
        StmtView::MultiVar { vars } => {
            lemma_top_declares_nothing(vars, vars.len() as int);
        },
        StmtView::Branch { condition, then_branch, else_branch } => {
            lemma_top_statement_declares_nothing(*then_branch);
            match else_branch {
                Some(else_branch) => {
                    lemma_top_statement_declares_nothing(*else_branch);
                },
                None => {},
            }
        },
        StmtView::While { condition, body, increment } => {
            lemma_top_statement_declares_nothing(*body);
            match increment {
                Some(increment) => {
                    lemma_top_statement_declares_nothing(*increment);
                },
                None => {},
            }
        },
        _ => {},
    }
}

} // verus!
