//! Records of calls, and the middleware that records every call it observes
//! into a log that its handles share.
use vstd::prelude::*;

use std::sync::{Arc, Mutex, MutexGuard};

use crate::json::JsonValue;
use crate::middleware::{IntoLayer, Layer, Middleware};

verus! {

/// A single record of one call passing through a pipeline.
#[derive(Debug, PartialEq)]
pub struct CallRecord {
    /// The tool name that was invoked.
    pub tool: String,
    /// The final arguments after all `pre` hooks ran; `null` in the records
    /// that `LogMiddleware` keeps, since its `post` hook never sees them.
    pub args: JsonValue,
    /// The final result after all `post` hooks ran.
    pub result: JsonValue,
}

impl Clone for CallRecord {
    fn clone(&self) -> (r: Self)
        ensures
            r.tool@ == self.tool@,
            r.args@ == self.args@,
            r.result@ == self.result@,
    {
        CallRecord { tool: self.tool.clone(), args: self.args.clone(), result: self.result.clone() }
    }
}

/// The record that `LogMiddleware` keeps of a call of `tool` that returned `result`:
/// the tool's name, `null` for the arguments, and a copy of the result.
pub fn observed_call(tool: &str, result: &JsonValue) -> (r: CallRecord)
    ensures
        r.tool@ == tool@,
        r.args == JsonValue::Null,
        r.result@ == result@,
{
    CallRecord { tool: tool.to_owned(), args: JsonValue::Null, result: result.clone() }
}

/// Appends `record` to `records`.
pub fn append(records: &mut Vec<CallRecord>, record: CallRecord)
    ensures
        final(records)@ == old(records)@.push(record),
{
    records.push(record);
}

/// `std::sync::Mutex`, which holds the shared log.
#[verifier::external_type_specification]
#[verifier::external_body]
#[verifier::reject_recursive_types(T)]
pub struct ExMutex<T: ?Sized>(Mutex<T>);

/// `std::sync::MutexGuard`, through which the locked log is read and written.
#[verifier::external_type_specification]
#[verifier::external_body]
#[verifier::reject_recursive_types(T)]
pub struct ExMutexGuard<'a, T: ?Sized + 'a>(MutexGuard<'a, T>);

/// The records that a lock was made holding.
pub uninterp spec fn made_with(m: Mutex<Vec<CallRecord>>) -> Seq<CallRecord>;

/// Makes the lock that holds a log, with `Mutex::new`: the lock is made
/// holding `records`.
///
/// What the lock holds later is not stated: handles of the log change it.
#[verifier::external_body]
fn new_lock(records: Vec<CallRecord>) -> (m: Mutex<Vec<CallRecord>>)
    ensures
        made_with(m) == records@,
{
    Mutex::new(records)
}

/// Takes the lock with `Mutex::lock`; a lock that a panicking holder left
/// poisoned is taken all the same, through `PoisonError::into_inner`.
///
/// `Mutex::lock` does not return when the calling thread already holds the
/// lock. No guard leaves this module: each function here drops its guard
/// before it returns and takes no other lock while holding it, so a thread
/// that calls `lock` never holds the lock already.
///
/// What the guarded log holds is not stated: other handles change it between locks.
#[verifier::external_body]
fn lock<'a>(m: &'a Mutex<Vec<CallRecord>>) -> MutexGuard<'a, Vec<CallRecord>> {
    match m.lock() {
        Ok(guard) => guard,
        Err(poisoned) => poisoned.into_inner(),
    }
}

/// The log behind a guard, through `MutexGuard::deref_mut`.
#[verifier::external_body]
fn guarded<'a, 'b>(g: &'a mut MutexGuard<'b, Vec<CallRecord>>) -> &'a mut Vec<CallRecord> {
    &mut **g
}

/// Another handle of the same lock, with `Arc::clone`; the handle is the same
/// pointer and so the same lock.
#[verifier::external_body]
fn share(log: &Arc<Mutex<Vec<CallRecord>>>) -> (r: Arc<Mutex<Vec<CallRecord>>>)
    ensures
        r == *log,
{
    Arc::clone(log)
}

/// Middleware that records every tool call it observes: the tool's name, `null`
/// for the arguments (its `post` hook sees only the result), and the result.
///
/// The log is shared by all handles made with `handle`, so calls recorded
/// through a pipeline that owns one handle can be read through another.
pub struct LogMiddleware {
    log: Arc<Mutex<Vec<CallRecord>>>,
}

impl LogMiddleware {
    /// The handle of the lock that holds the log; `handle` and `clone` give a
    /// middleware with the same store.
    pub closed spec fn store(&self) -> Arc<Mutex<Vec<CallRecord>>> {
        self.log
    }

    /// A logger with an empty log.
    pub fn new() -> (m: Self)
        ensures
            made_with(*m.store()) == Seq::<CallRecord>::empty(),
    {
        let records: Vec<CallRecord> = Vec::new();
        LogMiddleware { log: Arc::new(new_lock(records)) }
    }

    /// A handle that shares this logger's log.
    pub fn handle(&self) -> (h: Self)
        ensures
            h.store() == self.store(),
    {
        LogMiddleware { log: share(&self.log) }
    }

    /// A copy of the recorded entries, oldest first.
    pub fn entries(&self) -> Vec<CallRecord> {
        let (copy, _) = self.copy_log();
        copy
    }

    /// Number of calls recorded so far.
    pub fn len(&self) -> (n: usize) {
        let (n, _) = self.count_log();
        n
    }

    /// Whether no calls have been recorded yet.
    pub fn is_empty(&self) -> (b: bool) {
        let (b, _) = self.log_is_empty();
        b
    }

    /// Removes all recorded entries.
    pub fn clear(&self) {
        let _ = self.empty_log();
    }

    /// Appends `record` to the log. Returns what the log held just before
    /// and just after: exactly one record more, at the end.
    fn record(&self, record: CallRecord) -> (held: Ghost<(Seq<CallRecord>, Seq<CallRecord>)>)
        ensures
            held@.1 == held@.0.push(record),
    {
        let mut g = lock(&self.log);
        let records = guarded(&mut g);
        let ghost before = records@;
        append(records, record);
        Ghost((before, records@))
    }

    /// A copy of the log, with what the log held: one record per record, in
    /// order, each with the same tool, arguments and result.
    fn copy_log(&self) -> (r: (Vec<CallRecord>, Ghost<Seq<CallRecord>>))
        ensures
            r.0@.len() == r.1@.len(),
            forall|i: int| 0 <= i < r.1@.len() ==> {
                &&& #[trigger] r.0@[i].tool@ == r.1@[i].tool@
                &&& r.0@[i].args@ == r.1@[i].args@
                &&& r.0@[i].result@ == r.1@[i].result@
            },
    {
        let mut g = lock(&self.log);
        let records = guarded(&mut g);
        let n = records.len();
        let mut copy: Vec<CallRecord> = Vec::new();
        let mut i: usize = 0;
        while i < n
            invariant
                n == records@.len(),
                i <= n,
                copy@.len() == i,
                forall|j: int| 0 <= j < i ==> {
                    &&& #[trigger] copy@[j].tool@ == records@[j].tool@
                    &&& copy@[j].args@ == records@[j].args@
                    &&& copy@[j].result@ == records@[j].result@
                },
            decreases n - i,
        {
            let c = records[i].clone();
            copy.push(c);
            i = i + 1;
        }
        (copy, Ghost(records@))
    }

    /// The number of records, with what the log held.
    fn count_log(&self) -> (r: (usize, Ghost<Seq<CallRecord>>))
        ensures
            r.0 == r.1@.len(),
    {
        let mut g = lock(&self.log);
        let records = guarded(&mut g);
        (records.len(), Ghost(records@))
    }

    /// Whether the log holds no record, with what the log held.
    fn log_is_empty(&self) -> (r: (bool, Ghost<Seq<CallRecord>>))
        ensures
            r.0 == (r.1@.len() == 0),
    {
        let mut g = lock(&self.log);
        let records = guarded(&mut g);
        (records.len() == 0, Ghost(records@))
    }

    /// Removes every record. Returns what the log holds afterwards: nothing.
    fn empty_log(&self) -> (held: Ghost<Seq<CallRecord>>)
        ensures
            held@ == Seq::<CallRecord>::empty(),
    {
        let mut g = lock(&self.log);
        let records = guarded(&mut g);
        records.clear();
        Ghost(records@)
    }
}

impl Default for LogMiddleware {
    /// A logger with an empty log.
    fn default() -> (m: Self)
        ensures
            made_with(*m.store()) == Seq::<CallRecord>::empty(),
    {
        LogMiddleware::new()
    }
}

impl Clone for LogMiddleware {
    fn clone(&self) -> (r: Self)
        ensures
            r.store() == self.store(),
    {
        self.handle()
    }
}

impl Middleware for LogMiddleware {
    open spec fn spec_name(&self) -> Seq<char> {
        "log"@
    }

    /// Arguments pass through unchanged.
    open spec fn pre_allows(&self, tool: Seq<char>, args: JsonValue, out: JsonValue) -> bool {
        out == args
    }

    /// Results pass through unchanged (a copy goes to the log).
    open spec fn post_allows(&self, tool: Seq<char>, result: JsonValue, out: JsonValue) -> bool {
        out == result
    }

    fn name(&self) -> (r: &str) {
        "log"
    }

    fn pre(&self, tool: &str, args: JsonValue) -> (out: JsonValue) {
        args
    }

    fn post(&self, tool: &str, result: JsonValue) -> (out: JsonValue) {
        let _ = self.record(observed_call(tool, &result));
        result
    }
}

impl IntoLayer for LogMiddleware {
    fn into_layer(self) -> (l: Layer) {
        Layer { middleware: Box::new(self) }
    }
}

} // verus!
