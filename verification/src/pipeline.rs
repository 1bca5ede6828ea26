//! The ordered stack of middleware that every tool call runs through.
use vstd::prelude::*;

use crate::json::JsonValue;
use crate::log::CallRecord;
use crate::middleware::{layer_of, IntoLayer, Layer, Middleware};

verus! {

/// `trace[i + 1]` is what the `pre` hook of `stack[i]` may make of `trace[i]`:
/// the hooks run first to last, each on what the one before it gave.
pub open spec fn pre_trace(stack: Seq<Layer>, tool: Seq<char>, trace: Seq<JsonValue>) -> bool {
    &&& trace.len() == stack.len() + 1
    &&& forall|i: int| #![trigger stack[i]] 0 <= i < stack.len() ==> stack[i].middleware.pre_allows(tool, trace[i], trace[i + 1])
}

/// `trace[i]` is what the `post` hook of `stack[i]` may make of `trace[i + 1]`:
/// the hooks run last to first, each on what the one after it gave.
pub open spec fn post_trace(stack: Seq<Layer>, tool: Seq<char>, trace: Seq<JsonValue>) -> bool {
    &&& trace.len() == stack.len() + 1
    &&& forall|i: int| #![trigger stack[i]] 0 <= i < stack.len() ==> stack[i].middleware.post_allows(tool, trace[i + 1], trace[i])
}

/// Running the `pre` hooks of `stack`, in order, may turn `args` into `out`.
pub open spec fn pre_chain(stack: Seq<Layer>, tool: Seq<char>, args: JsonValue, out: JsonValue) -> bool {
    exists|t: Seq<JsonValue>| #[trigger] pre_trace(stack, tool, t) && t[0] == args && t.last() == out
}

/// Running the `post` hooks of `stack`, in reverse order, may turn `result` into `out`.
pub open spec fn post_chain(stack: Seq<Layer>, tool: Seq<char>, result: JsonValue, out: JsonValue) -> bool {
    exists|t: Seq<JsonValue>| #[trigger] post_trace(stack, tool, t) && t.last() == result && t[0] == out
}

/// `r` records a call of `tool` whose final arguments and result mean `args` and `result`.
pub open spec fn records_call(r: CallRecord, tool: Seq<char>, args: JsonValue, result: JsonValue) -> bool {
    &&& r.tool@ == tool
    &&& r.args@ == args@
    &&& r.result@ == result@
}

/// An ordered stack of middleware applied to every tool call.
///
/// `pre` hooks run in registration order; `post` hooks run in reverse order.
/// Every call is appended to an audit log.
pub struct MiddlewarePipeline {
    layers: Vec<Layer>,
    log: Vec<CallRecord>,
}

impl MiddlewarePipeline {
    /// The registered middleware, in registration order.
    pub closed spec fn stack(&self) -> Seq<Layer> {
        self.layers@
    }

    /// The recorded calls, oldest first.
    pub closed spec fn records(&self) -> Seq<CallRecord> {
        self.log@
    }

    /// An empty pipeline.
    pub fn new() -> (p: Self)
        ensures
            p.stack().len() == 0,
            p.records().len() == 0,
    {
        MiddlewarePipeline { layers: Vec::new(), log: Vec::new() }
    }

    /// Appends a middleware to the end of the stack.
    pub fn add<M: IntoLayer>(&mut self, m: M)
        ensures
            final(self).stack() == old(self).stack().push(final(self).stack().last()),
            layer_of(final(self).stack().last(), m),
            final(self).records() == old(self).records(),
    {
        let l = m.into_layer();
        self.layers.push(l);
    }

    /// Runs all `pre` hooks in order on `args`, then all `post` hooks in
    /// reverse order on `result`, records the call, and returns the final
    /// `(args, result)` pair.
    pub fn run(&mut self, tool: &str, args: JsonValue, result: JsonValue) -> (out: (JsonValue, JsonValue))
        ensures
            final(self).stack() == old(self).stack(),
            pre_chain(old(self).stack(), tool@, args, out.0),
            post_chain(old(self).stack(), tool@, result, out.1),
            final(self).records().len() == old(self).records().len() + 1,
            final(self).records().drop_last() == old(self).records(),
            records_call(final(self).records().last(), tool@, out.0, out.1),
    {
        let ghost args0 = args;
        let ghost result0 = result;
        let n = self.layers.len();

        let mut a = args;
        let ghost mut t: Seq<JsonValue> = seq![args0];
        let mut i: usize = 0;
        while i < n
            invariant
                n == self.layers@.len(),
                i <= n,
                t.len() == i + 1,
                t[0] == args0,
                t.last() == a,
                forall|j: int| #![trigger self.layers@[j]] 0 <= j < i ==> self.layers@[j].middleware.pre_allows(tool@, t[j], t[j + 1]),
            decreases n - i,
        {
            let b = self.layers[i].middleware.pre(tool, a);
            proof {
                t = t.push(b);
            }
            a = b;
            i = i + 1;
        }
        assert(pre_trace(self.layers@, tool@, t));

        let mut r = result;
        let ghost mut u: Seq<JsonValue> = seq![result0];
        let mut k: usize = n;
        while k > 0
            invariant
                n == self.layers@.len(),
                k <= n,
                u.len() == n - k + 1,
                u.last() == result0,
                u[0] == r,
                forall|j: int| #![trigger self.layers@[j]] k <= j < n ==> self.layers@[j].middleware.post_allows(tool@, u[j - k + 1], u[j - k]),
            decreases k,
        {
            let s = self.layers[k - 1].middleware.post(tool, r);
            proof {
                let u0 = u;
                u = seq![s] + u0;
                assert forall|j: int| #![trigger self.layers@[j]] k - 1 <= j < n implies self.layers@[j].middleware.post_allows(tool@, u[j - (k - 1) + 1], u[j - (k - 1)]) by {
                    if j >= k {
                        assert(u[j - (k - 1) + 1] == u0[j - k + 1]);
                        assert(u[j - (k - 1)] == u0[j - k]);
                    }
                }
            }
            r = s;
            k = k - 1;
        }
        assert(post_trace(self.layers@, tool@, u));

        let record = CallRecord { tool: tool.to_owned(), args: a.clone(), result: r.clone() };
        self.log.push(record);
        assert(self.log@.drop_last() =~= old(self).log@);
        (a, r)
    }

    /// All recorded calls, oldest first.
    pub fn call_log(&self) -> (r: &[CallRecord])
        ensures
            r@ == self.records(),
    {
        self.log.as_slice()
    }

    /// Number of calls that have run through this pipeline.
    pub fn call_count(&self) -> (n: usize)
        ensures
            n == self.records().len(),
    {
        self.log.len()
    }

    /// Number of registered middleware.
    pub fn middleware_count(&self) -> (n: usize)
        ensures
            n == self.stack().len(),
    {
        self.layers.len()
    }

    /// The name of each registered middleware, in order.
    pub fn middleware_names(&self) -> (names: Vec<&str>)
        ensures
            names@.len() == self.stack().len(),
            forall|i: int| #![trigger names@[i]] 0 <= i < names@.len() ==>
                names@[i]@ == self.stack()[i].middleware.spec_name(),
    {
        let n = self.layers.len();
        let mut names: Vec<&str> = Vec::new();
        let mut i: usize = 0;
        while i < n
            invariant
                n == self.layers@.len(),
                i <= n,
                names@.len() == i,
                forall|j: int| #![trigger names@[j]] 0 <= j < i ==>
                    names@[j]@ == self.layers@[j].middleware.spec_name(),
            decreases n - i,
        {
            names.push(self.layers[i].middleware.name());
            i = i + 1;
        }
        names
    }

    /// Discards the recorded calls without removing any middleware.
    pub fn clear_log(&mut self)
        ensures
            final(self).records().len() == 0,
            final(self).stack() == old(self).stack(),
    {
        self.log.clear();
    }
}

impl Default for MiddlewarePipeline {
    fn default() -> (p: Self)
        ensures
            p.stack().len() == 0,
            p.records().len() == 0,
    {
        MiddlewarePipeline::new()
    }
}


/// With no middleware registered, a run hands back the arguments and the
/// result it was given, and nothing else.
pub proof fn law_empty_pipeline_passes_through(stack: Seq<Layer>, tool: Seq<char>, input: JsonValue, out: JsonValue)
    requires
        stack.len() == 0,
    ensures
        pre_chain(stack, tool, input, out) <==> out == input,
        post_chain(stack, tool, input, out) <==> out == input,
{
    if pre_chain(stack, tool, input, out) {
        let t = choose|t: Seq<JsonValue>| #[trigger] pre_trace(stack, tool, t) && t[0] == input && t.last() == out;
    }
    if post_chain(stack, tool, input, out) {
        let u = choose|u: Seq<JsonValue>| #[trigger] post_trace(stack, tool, u) && u.last() == input && u[0] == out;
    }
    if out == input {
        let t = seq![input];
        assert(pre_trace(stack, tool, t));
        assert(post_trace(stack, tool, t));
    }
}

/// Onion model, arguments side: appending a middleware to a stack runs its
/// `pre` hook after all the others, on what they made of the arguments.
pub proof fn law_pre_hooks_run_in_registration_order(
    before: Seq<Layer>,
    after: Seq<Layer>,
    tool: Seq<char>,
    args: JsonValue,
    out: JsonValue,
)
    requires
        after.len() == before.len() + 1,
        forall|i: int| #![trigger after[i]] 0 <= i < before.len() ==> after[i] == before[i],
    ensures
        pre_chain(after, tool, args, out) <==> exists|mid: JsonValue|
            #[trigger] pre_chain(before, tool, args, mid) && after[before.len() as int].middleware.pre_allows(tool, mid, out),
{
    let n = before.len() as int;
    if pre_chain(after, tool, args, out) {
        let t = choose|t: Seq<JsonValue>| #[trigger] pre_trace(after, tool, t) && t[0] == args && t.last() == out;
        let tb = t.drop_last();
        assert forall|i: int| #![trigger before[i]] 0 <= i < before.len() implies before[i].middleware.pre_allows(tool, tb[i], tb[i + 1]) by {
            assert(after[i] == before[i]);
        }
        assert(pre_trace(before, tool, tb));
        assert(after[n].middleware.pre_allows(tool, t[n], t[n + 1]));
        assert(pre_chain(before, tool, args, t[n]));
    }
    if exists|mid: JsonValue| #[trigger] pre_chain(before, tool, args, mid) && after[n].middleware.pre_allows(tool, mid, out) {
        let mid = choose|mid: JsonValue| #[trigger] pre_chain(before, tool, args, mid) && after[n].middleware.pre_allows(tool, mid, out);
        let tb = choose|t: Seq<JsonValue>| #[trigger] pre_trace(before, tool, t) && t[0] == args && t.last() == mid;
        let t = tb.push(out);
        assert forall|i: int| #![trigger after[i]] 0 <= i < after.len() implies after[i].middleware.pre_allows(tool, t[i], t[i + 1]) by {
            if i < n {
                assert(after[i] == before[i]);
                assert(before[i].middleware.pre_allows(tool, tb[i], tb[i + 1]));
            }
        }
        assert(pre_trace(after, tool, t));
    }
}

/// Onion model, result side: appending a middleware to a stack runs its
/// `post` hook before all the others, which then work on what it made of the
/// result.
pub proof fn law_post_hooks_run_in_reverse_order(
    before: Seq<Layer>,
    after: Seq<Layer>,
    tool: Seq<char>,
    result: JsonValue,
    out: JsonValue,
)
    requires
        after.len() == before.len() + 1,
        forall|i: int| #![trigger after[i]] 0 <= i < before.len() ==> after[i] == before[i],
    ensures
        post_chain(after, tool, result, out) <==> exists|mid: JsonValue|
            after[before.len() as int].middleware.post_allows(tool, result, mid) && #[trigger] post_chain(before, tool, mid, out),
{
    let n = before.len() as int;
    if post_chain(after, tool, result, out) {
        let t = choose|t: Seq<JsonValue>| #[trigger] post_trace(after, tool, t) && t.last() == result && t[0] == out;
        let tb = t.drop_last();
        assert forall|i: int| #![trigger before[i]] 0 <= i < before.len() implies before[i].middleware.post_allows(tool, tb[i + 1], tb[i]) by {
            assert(after[i] == before[i]);
        }
        assert(post_trace(before, tool, tb));
        assert(after[n].middleware.post_allows(tool, t[n + 1], t[n]));
        assert(post_chain(before, tool, t[n], out));
    }
    if exists|mid: JsonValue| after[n].middleware.post_allows(tool, result, mid) && #[trigger] post_chain(before, tool, mid, out) {
        let mid = choose|mid: JsonValue| after[n].middleware.post_allows(tool, result, mid) && #[trigger] post_chain(before, tool, mid, out);
        let tb = choose|t: Seq<JsonValue>| #[trigger] post_trace(before, tool, t) && t.last() == mid && t[0] == out;
        let t = tb.push(result);
        assert forall|i: int| #![trigger after[i]] 0 <= i < after.len() implies after[i].middleware.post_allows(tool, t[i + 1], t[i]) by {
            if i < n {
                assert(after[i] == before[i]);
                assert(before[i].middleware.post_allows(tool, tb[i + 1], tb[i]));
            }
        }
        assert(post_trace(after, tool, t));
    }
}

} // verus!
