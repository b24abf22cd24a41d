//! Collection entries: declarative requests, turned into ready-to-send
//! requests.
use vstd::prelude::*;
use crate::headers::{malformed_message, raw_view};
use crate::request::{
    apply_headers, create_request, header_lines, method_of, plan_call, request_target, set_headers,
    unsupported_message, Call,
};
use crate::text::{str_equal, trim, trim_str};

verus! {

/// One collection entry: a named request and the fields to print of its
/// response. `data` is the JSON text of the body, if any.
pub struct Collection {
    pub name: String,
    pub url: String,
    pub method: String,
    pub headers: Vec<String>,
    pub data: Option<String>,
    pub print: Vec<String>,
}

/// What `str::to_lowercase` makes of a text.
pub uninterp spec fn lower_of(s: Seq<char>) -> Seq<char>;

/// Relies on str::to_lowercase: the result depends on the characters alone.
#[verifier::external_body]
fn lowercase(s: &str) -> (r: String)
    ensures
        r@ == lower_of(s@),
{
    s.to_lowercase()
}

pub open spec fn json_marker() -> Seq<char> {
    "content-type:application/json"@
}

/// A lower-cased raw header that, trimmed, reads
/// `content-type:application/json`.
pub fn is_json_marker(lowered: &str) -> (r: bool)
    ensures
        r == (trim(lowered@) == json_marker()),
{
    let t = trim_str(lowered);
    str_equal(t.as_str(), "content-type:application/json")
}

pub open spec fn strings_view(v: Seq<String>) -> Seq<Seq<char>> {
    v.map_values(|h: String| h@)
}

/// An entry asks for a JSON request where one of its raw headers, lower-cased
/// and trimmed, is `content-type:application/json`.
pub open spec fn declares_json(headers: Seq<String>) -> bool {
    exists|i: int| 0 <= i < headers.len() && trim(lower_of(#[trigger] headers[i]@)) == json_marker()
}

pub fn declares_json_request(headers: &Vec<String>) -> (r: bool)
    ensures
        r == declares_json(headers@),
{
    let mut i: usize = 0;
    while i < headers.len()
        invariant
            i <= headers.len(),
            forall|j: int| 0 <= j < i ==> trim(lower_of(#[trigger] headers@[j]@)) != json_marker(),
        decreases headers.len() - i,
    {
        let lowered = lowercase(headers[i].as_str());
        if is_json_marker(lowered.as_str()) {
            return true;
        }
        i = i + 1;
    }
    false
}

/// Builds the request that an entry describes and how to send it. An
/// unsupported method, then a malformed header, is refused with its message.
pub fn prepare_collection(c: &Collection) -> (r: Result<(ureq::Request, Call), String>)
    ensures
        method_of(c.method@) is None ==> r is Err && r->Err_0@ == unsupported_message(c.method@),
        method_of(c.method@) is Some ==> {
            let applied = apply_headers(
                Seq::empty(),
                strings_view(c.headers@),
                declares_json(c.headers@),
            );
            &&& (r is Err <==> applied is Err)
            &&& r is Err ==> r->Err_0@ == malformed_message(applied->Err_0)
            &&& r is Ok ==> header_lines(r->Ok_0.0) == applied->Ok_0
            &&& r is Ok ==> request_target(r->Ok_0.0) == (c.method@, c.url@)
        },
        r is Ok ==> (c.data is Some <==> r->Ok_0.1 is Payload),
        r is Ok && c.data is Some ==> r->Ok_0.1->Payload_0@ == c.data->Some_0@,
{
    let request = match create_request(c.method.clone(), &c.url) {
        Ok(req) => req,
        Err(e) => return Err(e),
    };
    let mut refs: Vec<&String> = Vec::new();
    let mut i: usize = 0;
    while i < c.headers.len()
        invariant
            i <= c.headers.len(),
            refs@.len() == i,
            forall|j: int| 0 <= j < i ==> (#[trigger] refs@[j])@ == c.headers@[j]@,
        decreases c.headers.len() - i,
    {
        refs.push(&c.headers[i]);
        i = i + 1;
    }
    assert(raw_view(refs@) =~= strings_view(c.headers@));
    let is_json_request = declares_json_request(&c.headers);
    let request = match set_headers(refs, request, is_json_request) {
        Ok(req) => req,
        Err(e) => return Err(e),
    };
    Ok((request, plan_call(c.data.as_ref())))
}

pub open spec fn missing_collection_text(path: Seq<char>) -> Seq<char> {
    "Cannot find collection file: "@ + path
}

/// The message for a collection file that cannot be read or understood.
pub fn missing_collection_message(path: &str) -> (r: String)
    ensures
        r@ == missing_collection_text(path@),
{
    let mut m = String::from_str("Cannot find collection file: ");
    m.append(path);
    m
}

} // verus!

verus! {

/// What running one collection entry came to.
#[derive(Debug, PartialEq, Eq)]
pub enum EntryOutcome {
    /// The entry was refused (bad method or malformed header), with the message.
    Refused(String),
    /// The entry was sent and its response rendered to this text.
    Rendered(String),
    /// The transport failed.
    TransportFailed,
}

/// What the batch does after an entry.
#[derive(Debug, PartialEq, Eq)]
pub enum BatchStep {
    /// Write these texts and go on with the next entry.
    Continue { stdout: String, stderr: String },
    /// Stop the batch: the transport error ends the run.
    Stop,
}

pub open spec fn separator_text() -> Seq<char> {
    "\n\n"@
}

/// The step after an outcome, as `None` for stopping or the texts written to
/// standard output and standard error.
pub open spec fn step_view(o: EntryOutcome) -> Option<(Seq<char>, Seq<char>)> {
    match o {
        EntryOutcome::Refused(m) => Some((separator_text(), m@ + "\n"@)),
        EntryOutcome::Rendered(t) => Some((t@ + separator_text(), Seq::empty())),
        EntryOutcome::TransportFailed => None,
    }
}

pub open spec fn batch_step_view(s: BatchStep) -> Option<(Seq<char>, Seq<char>)> {
    match s {
        BatchStep::Continue { stdout, stderr } => Some((stdout@, stderr@)),
        BatchStep::Stop => None,
    }
}

/// Decides what follows an entry: a refused entry is reported on standard
/// error and the batch goes on; a rendered one is written; two blank lines
/// follow either; a transport failure stops the batch.
pub fn after_entry(outcome: &EntryOutcome) -> (r: BatchStep)
    ensures
        batch_step_view(r) == step_view(*outcome),
        (outcome is TransportFailed) <==> (r is Stop),
{
    match outcome {
        EntryOutcome::Refused(m) => {
            let mut err = m.clone();
            err.append("\n");
            BatchStep::Continue { stdout: String::from_str("\n\n"), stderr: err }
        },
        EntryOutcome::Rendered(t) => {
            let mut out = t.clone();
            out.append("\n\n");
            BatchStep::Continue { stdout: out, stderr: String::new() }
        },
        EntryOutcome::TransportFailed => BatchStep::Stop,
    }
}

/// Running the steps over outcomes in order: standard output, standard error,
/// and whether the batch stopped. Nothing after a stop is run.
pub open spec fn run_batch(os: Seq<EntryOutcome>) -> (Seq<char>, Seq<char>, bool)
    decreases os.len(),
{
    if os.len() == 0 {
        (Seq::empty(), Seq::empty(), false)
    } else {
        let prev = run_batch(os.drop_last());
        if prev.2 {
            prev
        } else {
            match step_view(os.last()) {
                None => (prev.0, prev.1, true),
                Some(w) => (prev.0 + w.0, prev.1 + w.1, false),
            }
        }
    }
}

/// The output an entry contributes when the batch reaches it.
pub open spec fn entry_output(o: EntryOutcome) -> Seq<char> {
    match o {
        EntryOutcome::Rendered(t) => t@ + separator_text(),
        _ => separator_text(),
    }
}

/// Each entry's output in file order.
pub open spec fn outputs_in_order(os: Seq<EntryOutcome>) -> Seq<char>
    decreases os.len(),
{
    if os.len() == 0 {
        Seq::empty()
    } else {
        outputs_in_order(os.drop_last()) + entry_output(os.last())
    }
}

/// Each refusal's message on its own line, in file order.
pub open spec fn refusals_in_order(os: Seq<EntryOutcome>) -> Seq<char>
    decreases os.len(),
{
    if os.len() == 0 {
        Seq::empty()
    } else {
        refusals_in_order(os.drop_last()) + match os.last() {
            EntryOutcome::Refused(m) => m@ + "\n"@,
            _ => Seq::empty(),
        }
    }
}

/// Where no transport fails, the batch runs every entry in file order: each
/// rendered entry's text (which opens with its own `Collection:` label) and
/// each refused entry alike is followed by two blank lines, refused entries
/// are reported and do not stop the ones after them.
pub proof fn lemma_batch_runs_every_entry(os: Seq<EntryOutcome>)
    requires
        forall|i: int| 0 <= i < os.len() ==> !(#[trigger] os[i] is TransportFailed),
    ensures
        run_batch(os) == (outputs_in_order(os), refusals_in_order(os), false),
    decreases os.len(),
{
    if os.len() > 0 {
        let init = os.drop_last();
        assert forall|i: int| 0 <= i < init.len() implies !(#[trigger] init[i] is TransportFailed) by {
            assert(init[i] == os[i]);
        }
        lemma_batch_runs_every_entry(init);
        assert(!(os[os.len() - 1] is TransportFailed));
        assert(Seq::<char>::empty() + separator_text() =~= separator_text());
        assert(refusals_in_order(init) + Seq::<char>::empty() =~= refusals_in_order(init));
    }
}

/// A transport failure stops the batch: the entries after it add nothing.
pub proof fn lemma_transport_failure_stops(os: Seq<EntryOutcome>, rest: Seq<EntryOutcome>)
    requires
        os.len() > 0,
        os.last() is TransportFailed,
    ensures
        run_batch(os + rest).2,
        run_batch(os + rest) == run_batch(os),
    decreases rest.len(),
{
    if rest.len() == 0 {
        assert(os + rest =~= os);
        if !run_batch(os.drop_last()).2 {
            assert(step_view(os.last()) is None);
        }
    } else {
        lemma_transport_failure_stops(os, rest.drop_last());
        assert((os + rest).drop_last() =~= os + rest.drop_last());
    }
}

} // verus!
