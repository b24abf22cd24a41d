//! Request building: method dispatch onto ureq's constructors, applying the
//! merged headers, and the choice between a payload and a bodyless call.
use vstd::prelude::*;
use crate::headers::{
    HeaderPair, applied_value, has_name, is_content_type, is_well_formed, json_media_type,
    lemma_distinct_headers_trimmed, lemma_first_occurrence_wins, lemma_json_adds_content_type, lemma_json_forces_content_type,
    lemma_merged_names_distinct, lemma_repeated_name_ignored,
    lemma_well_formed_headers_resolve, malformed_message, merge_headers, merge_prefix,
    names_distinct, parse_header, parse_header_line, parsed_all, raw_view,
};
use crate::text::{eq_ignore_ascii_case, str_eq_ignore_ascii_case, str_equal, trim};

verus! {

#[verifier::external_type_specification]
#[verifier::external_body]
pub struct ExRequest(ureq::Request);

/// The header lines that a ureq request holds, as name and value in the order
/// they were set.
pub uninterp spec fn header_lines(r: ureq::Request) -> Seq<(Seq<char>, Seq<char>)>;

/// The method and the URL that a ureq request was built with.
pub uninterp spec fn request_target(r: ureq::Request) -> (Seq<char>, Seq<char>);

/// Relies on ureq::get: `Request::new` keeps method `GET` and the URL as
/// given, and starts with no header.
pub assume_specification[ ureq::get ](path: &str) -> (r: ureq::Request)
    ensures
        header_lines(r) == Seq::<(Seq<char>, Seq<char>)>::empty(),
        request_target(r) == ("GET"@, path@),
;

/// Relies on ureq::post: method `POST`, the URL as given, no header.
pub assume_specification[ ureq::post ](path: &str) -> (r: ureq::Request)
    ensures
        header_lines(r) == Seq::<(Seq<char>, Seq<char>)>::empty(),
        request_target(r) == ("POST"@, path@),
;

/// Relies on ureq::put: method `PUT`, the URL as given, no header.
pub assume_specification[ ureq::put ](path: &str) -> (r: ureq::Request)
    ensures
        header_lines(r) == Seq::<(Seq<char>, Seq<char>)>::empty(),
        request_target(r) == ("PUT"@, path@),
;

/// Relies on ureq::delete: method `DELETE`, the URL as given, no header.
pub assume_specification[ ureq::delete ](path: &str) -> (r: ureq::Request)
    ensures
        header_lines(r) == Seq::<(Seq<char>, Seq<char>)>::empty(),
        request_target(r) == ("DELETE"@, path@),
;

/// Relies on ureq::head: method `HEAD`, the URL as given, no header.
pub assume_specification[ ureq::head ](path: &str) -> (r: ureq::Request)
    ensures
        header_lines(r) == Seq::<(Seq<char>, Seq<char>)>::empty(),
        request_target(r) == ("HEAD"@, path@),
;

/// A name that `add_header` lets repeat: it starts with `x-` or `X-`.
pub open spec fn is_extension_name(name: Seq<char>) -> bool {
    name.len() >= 2 && (name[0] == 'x' || name[0] == 'X') && name[1] == '-'
}

/// A line whose name is not exactly `name`.
pub open spec fn other_name(name: Seq<char>) -> spec_fn((Seq<char>, Seq<char>)) -> bool {
    |l: (Seq<char>, Seq<char>)| l.0 != name
}

/// The lines after setting `name: value`: lines of exactly that name are
/// dropped (but for extension names), then the new line is appended.
pub open spec fn after_set(
    lines: Seq<(Seq<char>, Seq<char>)>,
    name: Seq<char>,
    value: Seq<char>,
) -> Seq<(Seq<char>, Seq<char>)> {
    let kept = if is_extension_name(name) {
        lines
    } else {
        lines.filter(other_name(name))
    };
    kept.push((name, value))
}

/// A character that ureq accepts in a header value: space, tab or visible
/// ASCII.
pub open spec fn is_field_char(c: char) -> bool {
    c == ' ' || c == '\t' || (0x21 <= (c as u32) && (c as u32) <= 0x7E)
}

/// ureq reads a line's value back (trimmed) only when all of it is made of
/// field characters.
pub open spec fn readable_value(value: Seq<char>) -> bool {
    forall|i: int| 0 <= i < trim(value).len() ==> is_field_char(#[trigger] trim(value)[i])
}

/// What `Request::has` answers: the first line whose name matches up to
/// ASCII case has a readable value.
pub open spec fn lines_have(lines: Seq<(Seq<char>, Seq<char>)>, name: Seq<char>) -> bool
    decreases lines.len(),
{
    if lines.len() == 0 {
        false
    } else if eq_ignore_ascii_case(lines[0].0, name) {
        readable_value(lines[0].1)
    } else {
        lines_have(lines.drop_first(), name)
    }
}

/// Relies on ureq::Request::set: `add_header` drops the lines of exactly that
/// name unless it starts with `x-`/`X-`, then appends `Header::new(header,
/// value)`; method and URL stay.
pub assume_specification[ ureq::Request::set ](
    request: ureq::Request,
    header: &str,
    value: &str,
) -> (r: ureq::Request)
    ensures
        header_lines(r) == after_set(header_lines(request), header@, value@),
        request_target(r) == request_target(request),
;

/// Relies on ureq::Request::has: `get_header` finds the first line whose name
/// equals `name` up to ASCII case, and `Header::value` gives it back only when
/// its trimmed value is made of field characters.
pub assume_specification[ ureq::Request::has ](request: &ureq::Request, name: &str) -> (r: bool)
    ensures
        r == lines_have(header_lines(*request), name@),
;

/// The methods that a request can be built for.
#[derive(Clone, Copy, Debug, PartialEq, Eq)]
pub enum Method {
    Get,
    Post,
    Put,
    Delete,
    Head,
}

/// The method that an upper-case method name stands for, if any.
pub open spec fn method_of(name: Seq<char>) -> Option<Method> {
    if name == "GET"@ {
        Some(Method::Get)
    } else if name == "POST"@ {
        Some(Method::Post)
    } else if name == "PUT"@ {
        Some(Method::Put)
    } else if name == "DELETE"@ {
        Some(Method::Delete)
    } else if name == "HEAD"@ {
        Some(Method::Head)
    } else {
        None
    }
}

pub open spec fn unsupported_message(method: Seq<char>) -> Seq<char> {
    "Unsupported HTTP method: "@ + method
}

/// Maps a method name onto a method; anything outside the five supported
/// names is refused with a message that names it.
pub fn parse_method(method: &str) -> (r: Result<Method, String>)
    ensures
        r is Ok <==> method_of(method@) is Some,
        r is Ok ==> method_of(method@) == Some(r->Ok_0),
        r is Err ==> r->Err_0@ == unsupported_message(method@),
{
    if str_equal(method, "GET") {
        Ok(Method::Get)
    } else if str_equal(method, "POST") {
        Ok(Method::Post)
    } else if str_equal(method, "PUT") {
        Ok(Method::Put)
    } else if str_equal(method, "DELETE") {
        Ok(Method::Delete)
    } else if str_equal(method, "HEAD") {
        Ok(Method::Head)
    } else {
        let mut m = String::from_str("Unsupported HTTP method: ");
        m.append(method);
        Err(m)
    }
}

/// Builds a request for `url` with the constructor of the named method.
pub fn create_request(method: String, url: &String) -> (r: Result<ureq::Request, String>)
    ensures
        r is Ok <==> method_of(method@) is Some,
        r is Ok ==> header_lines(r->Ok_0) == Seq::<(Seq<char>, Seq<char>)>::empty(),
        r is Ok ==> request_target(r->Ok_0) == (method@, url@),
        r is Err ==> r->Err_0@ == unsupported_message(method@),
{
    match parse_method(method.as_str()) {
        Ok(Method::Get) => Ok(ureq::get(url.as_str())),
        Ok(Method::Post) => Ok(ureq::post(url.as_str())),
        Ok(Method::Put) => Ok(ureq::put(url.as_str())),
        Ok(Method::Delete) => Ok(ureq::delete(url.as_str())),
        Ok(Method::Head) => Ok(ureq::head(url.as_str())),
        Err(e) => Err(e),
    }
}

/// Sets the raw headers in order on a request with header lines `lines`,
/// keeping the assignments made so far beside the lines. A name is skipped
/// when an earlier raw header already set it (up to ASCII case) or the request
/// reports it as set; a content type takes `application/json` under the JSON
/// override; the first malformed raw header is the error.
pub open spec fn apply_prefix(
    lines: Seq<HeaderPair>,
    raws: Seq<Seq<char>>,
    json: bool,
) -> Result<(Seq<HeaderPair>, Seq<HeaderPair>), Seq<char>>
    decreases raws.len(),
{
    if raws.len() == 0 {
        Ok((lines, Seq::empty()))
    } else {
        match apply_prefix(lines, raws.drop_last(), json) {
            Err(e) => Err(e),
            Ok(st) => match parse_header(raws.last()) {
                None => Err(raws.last()),
                Some(p) => if has_name(st.1, p.0) || lines_have(st.0, p.0) {
                    Ok(st)
                } else {
                    let v = applied_value(p.0, p.1, json);
                    Ok((after_set(st.0, p.0, v), st.1.push((p.0, v))))
                },
            },
        }
    }
}

/// The lines after all raw headers, with `Content-type: application/json`
/// set last under the JSON override where no content type was set.
pub open spec fn apply_headers(
    lines: Seq<HeaderPair>,
    raws: Seq<Seq<char>>,
    json: bool,
) -> Result<Seq<HeaderPair>, Seq<char>> {
    match apply_prefix(lines, raws, json) {
        Err(e) => Err(e),
        Ok(st) => if json && !(has_name(st.1, "Content-type"@) || lines_have(st.0, "Content-type"@)) {
            Ok(after_set(st.0, "Content-type"@, json_media_type()))
        } else {
            Ok(st.0)
        },
    }
}

pub open spec fn pairs_view(v: Seq<(String, String)>) -> Seq<HeaderPair> {
    v.map_values(|p: (String, String)| (p.0@, p.1@))
}

fn contains_name(hs: &Vec<(String, String)>, name: &str) -> (r: bool)
    ensures
        r == has_name(pairs_view(hs@), name@),
{
    let mut i: usize = 0;
    while i < hs.len()
        invariant
            i <= hs.len(),
            forall|j: int| 0 <= j < i ==> !eq_ignore_ascii_case(#[trigger] hs@[j].0@, name@),
        decreases hs.len() - i,
    {
        if str_eq_ignore_ascii_case(hs[i].0.as_str(), name) {
            assert(pairs_view(hs@)[i as int].0 == hs@[i as int].0@);
            return true;
        }
        i = i + 1;
    }
    assert forall|j: int| 0 <= j < pairs_view(hs@).len() implies !eq_ignore_ascii_case(
        #[trigger] pairs_view(hs@)[j].0,
        name@,
    ) by {
        assert(pairs_view(hs@)[j].0 == hs@[j].0@);
    }
    false
}

/// Once a prefix of the raw headers fails, every longer prefix fails the same
/// way.
proof fn lemma_apply_prefix_err_extends(
    lines: Seq<(Seq<char>, Seq<char>)>,
    raws: Seq<Seq<char>>,
    json: bool,
    n: int,
)
    requires
        0 <= n <= raws.len(),
        apply_prefix(lines, raws.subrange(0, n), json) is Err,
    ensures
        apply_prefix(lines, raws, json) == apply_prefix(lines, raws.subrange(0, n), json),
    decreases raws.len() - n,
{
    if n < raws.len() {
        assert(raws.subrange(0, n + 1).drop_last() =~= raws.subrange(0, n));
        lemma_apply_prefix_err_extends(lines, raws, json, n + 1);
    } else {
        assert(raws.subrange(0, n) =~= raws);
    }
}

/// Applies the raw headers to `request` under the merge policy: a name is
/// skipped when an earlier raw header set it or the request reports it as set
/// (`Request::has`); method and URL stay. On a malformed
/// header only its message is returned.
pub fn set_headers(headers: Vec<&String>, request: ureq::Request, is_json_request: bool) -> (r: Result<
    ureq::Request,
    String,
>)
    ensures
        r is Err <==> apply_headers(header_lines(request), raw_view(headers@), is_json_request) is Err,
        r is Err ==> r->Err_0@ == malformed_message(
            apply_headers(header_lines(request), raw_view(headers@), is_json_request)->Err_0,
        ),
        r is Ok ==> header_lines(r->Ok_0) == apply_headers(
            header_lines(request),
            raw_view(headers@),
            is_json_request,
        )->Ok_0,
        r is Ok ==> request_target(r->Ok_0) == request_target(request),
{
    let ghost lines0 = header_lines(request);
    let ghost target0 = request_target(request);
    let mut req = request;
    let mut applied: Vec<(String, String)> = Vec::new();
    let mut i: usize = 0;
    assert(raw_view(headers@.subrange(0, 0)).len() == 0);
    assert(pairs_view(applied@) =~= Seq::<HeaderPair>::empty());
    while i < headers.len()
        invariant
            i <= headers.len(),
            apply_prefix(lines0, raw_view(headers@.subrange(0, i as int)), is_json_request) == Ok::<
                (Seq<HeaderPair>, Seq<HeaderPair>),
                Seq<char>,
            >((header_lines(req), pairs_view(applied@))),
            request_target(req) == target0,
            lines0 == header_lines(request),
        decreases headers.len() - i,
    {
        let raw: &String = headers[i];
        let ghost before = raw_view(headers@.subrange(0, i as int));
        let ghost upto = raw_view(headers@.subrange(0, i + 1));
        assert(upto.drop_last() =~= before);
        assert(upto.last() == raw@);
        assert(upto.len() > 0);
        let ghost st = (header_lines(req), pairs_view(applied@));
        assert(apply_prefix(lines0, upto, is_json_request) == match parse_header(raw@) {
            None => Err(raw@),
            Some(p) => if has_name(st.1, p.0) || lines_have(st.0, p.0) {
                Ok(st)
            } else {
                let v = applied_value(p.0, p.1, is_json_request);
                Ok((after_set(st.0, p.0, v), st.1.push((p.0, v))))
            },
        });
        match parse_header_line(raw.as_str()) {
            None => {
                proof {
                    assert(raw_view(headers@).subrange(0, i + 1) =~= upto);
                    lemma_apply_prefix_err_extends(lines0, raw_view(headers@), is_json_request, i as int + 1);
                }
                let mut m = String::from_str("Invalid header format: ");
                m.append(raw.as_str());
                return Err(m);
            },
            Some(p) => {
                let (name, value) = p;
                if !contains_name(&applied, name.as_str()) && !req.has(name.as_str()) {
                    let v = if is_json_request && str_eq_ignore_ascii_case(name.as_str(), "Content-Type") {
                        String::from_str("application/json")
                    } else {
                        value
                    };
                    req = req.set(name.as_str(), v.as_str());
                    let ghost old_view = pairs_view(applied@);
                    let ghost entry = (name@, v@);
                    applied.push((name, v));
                    assert(pairs_view(applied@) =~= old_view.push(entry));
                }
            },
        }
        i = i + 1;
    }
    assert(raw_view(headers@.subrange(0, headers@.len() as int)) =~= raw_view(headers@));
    if is_json_request && !(contains_name(&applied, "Content-type") || req.has("Content-type")) {
        req = req.set("Content-type", "application/json");
    }
    Ok(req)
}

/// Setting a name that no line carries exactly appends one line.
proof fn lemma_after_set_appends(lines: Seq<(Seq<char>, Seq<char>)>, name: Seq<char>, value: Seq<char>)
    requires
        forall|i: int| 0 <= i < lines.len() ==> #[trigger] lines[i].0 != name,
    ensures
        after_set(lines, name, value) == lines.push((name, value)),
{
    lemma_filter_keeps_all(lines, name);
}

proof fn lemma_filter_keeps_all(lines: Seq<(Seq<char>, Seq<char>)>, name: Seq<char>)
    requires
        forall|i: int| 0 <= i < lines.len() ==> #[trigger] lines[i].0 != name,
    ensures
        lines.filter(other_name(name)) == lines,
    decreases lines.len(),
{
    reveal(Seq::filter);
    if lines.len() > 0 {
        let init = lines.drop_last();
        assert forall|i: int| 0 <= i < init.len() implies #[trigger] init[i].0 != name by {
            assert(init[i] == lines[i]);
        }
        lemma_filter_keeps_all(init, name);
        assert(lines.last().0 != name);
        assert((other_name(name))(lines.last()));
        assert(init.push(lines.last()) =~= lines);
    }
}

/// Where `Request::has` reports a name, some line carries it up to ASCII
/// case.
proof fn lemma_lines_have_has_name(lines: Seq<HeaderPair>, name: Seq<char>)
    ensures
        lines_have(lines, name) ==> has_name(lines, name),
    decreases lines.len(),
{
    if lines.len() > 0 {
        let rest = lines.drop_first();
        lemma_lines_have_has_name(rest, name);
        if lines_have(lines, name) && !eq_ignore_ascii_case(lines[0].0, name) {
            let w = choose|w: int| 0 <= w < rest.len() && eq_ignore_ascii_case(#[trigger] rest[w].0, name);
            assert(rest[w] == lines[w + 1]);
        }
    }
}

proof fn lemma_apply_prefix_fresh(raws: Seq<Seq<char>>, json: bool)
    ensures
        apply_prefix(Seq::empty(), raws, json) == match merge_prefix(raws, json) {
            Ok(hs) => Ok::<(Seq<HeaderPair>, Seq<HeaderPair>), Seq<char>>((hs, hs)),
            Err(e) => Err(e),
        },
    decreases raws.len(),
{
    if raws.len() > 0 {
        let init = raws.drop_last();
        lemma_apply_prefix_fresh(init, json);
        if merge_prefix(init, json) is Ok && parse_header(raws.last()) is Some {
            let hs = merge_prefix(init, json)->Ok_0;
            let p = parse_header(raws.last())->Some_0;
            lemma_lines_have_has_name(hs, p.0);
            if !has_name(hs, p.0) {
                assert forall|i: int| 0 <= i < hs.len() implies #[trigger] hs[i].0 != p.0 by {
                    if hs[i].0 == p.0 {
                        assert(eq_ignore_ascii_case(hs[i].0, p.0));
                    }
                }
                lemma_after_set_appends(hs, p.0, applied_value(p.0, p.1, json));
            }
        }
    }
}

/// On a request with no header, the request ends up with exactly the
/// assignments of the merge policy.
pub proof fn lemma_fresh_request_gets_merged_headers(raws: Seq<Seq<char>>, json: bool)
    ensures
        apply_headers(Seq::empty(), raws, json) == merge_headers(raws, json),
{
    lemma_apply_prefix_fresh(raws, json);
    if merge_prefix(raws, json) is Ok {
        let hs = merge_prefix(raws, json)->Ok_0;
        lemma_lines_have_has_name(hs, "Content-type"@);
        if json && !has_name(hs, "Content-type"@) {
            assert forall|i: int| 0 <= i < hs.len() implies #[trigger] hs[i].0 != "Content-type"@ by {
                if hs[i].0 == "Content-type"@ {
                    assert(eq_ignore_ascii_case(hs[i].0, "Content-type"@));
                }
            }
            lemma_after_set_appends(hs, "Content-type"@, json_media_type());
        }
    }
}

/// How a request is sent.
#[derive(Debug, PartialEq, Eq)]
pub enum Call {
    /// The text is sent as the request payload.
    Payload(String),
    /// The request is sent without a body.
    Bodyless,
}

/// A body makes a payload call; no body makes a bodyless one.
pub fn plan_call(data: Option<&String>) -> (r: Call)
    ensures
        data is Some <==> r is Payload,
        data is Some ==> r->Payload_0@ == data->Some_0@,
{
    match data {
        Some(d) => Call::Payload(d.clone()),
        None => Call::Bodyless,
    }
}

} // verus!

verus! {

/// On a new request, well-formed raw headers with distinct names (up to ASCII
/// case) are all set without the JSON override, each
/// with name and value trimmed, in order.
pub proof fn lemma_set_headers_trimmed(raws: Seq<Seq<char>>)
    requires
        forall|i: int| 0 <= i < raws.len() ==> is_well_formed(#[trigger] raws[i]),
        forall|i: int, j: int|
            0 <= i < j < raws.len() ==> !eq_ignore_ascii_case(
                #[trigger] parse_header(raws[i])->Some_0.0,
                #[trigger] parse_header(raws[j])->Some_0.0,
            ),
    ensures
        apply_headers(Seq::empty(), raws, false) == Ok::<Seq<(Seq<char>, Seq<char>)>, Seq<char>>(
            parsed_all(raws),
        ),
{
    lemma_fresh_request_gets_merged_headers(raws, false);
    lemma_distinct_headers_trimmed(raws);
}

/// On a new request, a raw header whose name an earlier raw header already
/// gave (up to ASCII case) is not applied: the first one stays.
pub proof fn lemma_set_headers_first_wins(raws: Seq<Seq<char>>, extra: Seq<char>, json: bool)
    requires
        parse_header(extra) is Some,
        exists|i: int|
            0 <= i < raws.len() && #[trigger] parse_header(raws[i]) is Some && eq_ignore_ascii_case(
                parse_header(raws[i])->Some_0.0,
                parse_header(extra)->Some_0.0,
            ),
    ensures
        apply_headers(Seq::empty(), raws.push(extra), json) == apply_headers(Seq::empty(), raws, json),
{
    let all = raws.push(extra);
    lemma_fresh_request_gets_merged_headers(all, json);
    lemma_fresh_request_gets_merged_headers(raws, json);
    lemma_repeated_name_ignored(raws, extra, json);
}

/// On a new request under the JSON override, well-formed raw headers that name
/// no content type are all applied, followed by
/// the one `Content-type: application/json`; no other line is a content type.
pub proof fn lemma_set_headers_json_adds_content_type(raws: Seq<Seq<char>>)
    requires
        forall|i: int| 0 <= i < raws.len() ==> is_well_formed(#[trigger] raws[i]),
        forall|i: int|
            0 <= i < raws.len() && #[trigger] parse_header(raws[i]) is Some ==> !is_content_type(
                parse_header(raws[i])->Some_0.0,
            ),
    ensures
        apply_headers(Seq::empty(), raws, true) is Ok,
        ({
            let ls = apply_headers(Seq::empty(), raws, true)->Ok_0;
            &&& ls.len() > 0
            &&& ls.last() == ("Content-type"@, json_media_type())
            &&& is_content_type(ls.last().0)
            &&& forall|k: int| 0 <= k < ls.len() - 1 ==> !is_content_type(#[trigger] ls[k].0)
        }),
{
    lemma_fresh_request_gets_merged_headers(raws, true);
    lemma_well_formed_headers_resolve(raws, true);
    lemma_json_adds_content_type(raws);
}

/// On a new request under the JSON override, well-formed raw headers always
/// apply; every content-type line then carries
/// `application/json`, whatever value was given, and no two lines share a
/// name up to ASCII case, so there is at most one content type.
pub proof fn lemma_set_headers_json_forces_content_type(raws: Seq<Seq<char>>)
    requires
        forall|i: int| 0 <= i < raws.len() ==> is_well_formed(#[trigger] raws[i]),
    ensures
        apply_headers(Seq::empty(), raws, true) is Ok,
        names_distinct(apply_headers(Seq::empty(), raws, true)->Ok_0),
        has_name(apply_headers(Seq::empty(), raws, true)->Ok_0, "Content-type"@),
        forall|k: int|
            0 <= k < apply_headers(Seq::empty(), raws, true)->Ok_0.len() && is_content_type(
                #[trigger] apply_headers(Seq::empty(), raws, true)->Ok_0[k].0,
            ) ==> apply_headers(Seq::empty(), raws, true)->Ok_0[k].1 == json_media_type(),
{
    lemma_fresh_request_gets_merged_headers(raws, true);
    lemma_well_formed_headers_resolve(raws, true);
    lemma_json_forces_content_type(raws);
    lemma_merged_names_distinct(raws, true);
    let hs = merge_prefix(raws, true)->Ok_0;
    if has_name(hs, "Content-type"@) {
        let w = choose|w: int| 0 <= w < hs.len() && eq_ignore_ascii_case(#[trigger] hs[w].0, "Content-type"@);
        assert(merge_headers(raws, true)->Ok_0[w] == hs[w]);
    } else {
        let out = merge_headers(raws, true)->Ok_0;
        assert(out[hs.len() as int].0 == "Content-type"@);
        assert(eq_ignore_ascii_case(out[hs.len() as int].0, "Content-type"@));
    }
}

} // verus!

verus! {

/// On a new request, the first well-formed raw header that gives a name (up to
/// ASCII case) decides it: the request holds that name with its value (as
/// applied), and every line carrying the name up to ASCII case is that one;
/// later raw headers of the name are not applied.
pub proof fn lemma_set_headers_first_occurrence_wins(raws: Seq<Seq<char>>, json: bool, i: int)
    requires
        forall|k: int| 0 <= k < raws.len() ==> is_well_formed(#[trigger] raws[k]),
        0 <= i < raws.len(),
        forall|k: int|
            0 <= k < i ==> !eq_ignore_ascii_case(
                #[trigger] parse_header(raws[k])->Some_0.0,
                parse_header(raws[i])->Some_0.0,
            ),
    ensures
        apply_headers(Seq::empty(), raws, json) is Ok,
        ({
            let ls = apply_headers(Seq::empty(), raws, json)->Ok_0;
            let p = parse_header(raws[i])->Some_0;
            let first = (p.0, applied_value(p.0, p.1, json));
            &&& exists|w: int| 0 <= w < ls.len() && ls[w] == first
            &&& forall|w: int|
                0 <= w < ls.len() && eq_ignore_ascii_case(#[trigger] ls[w].0, p.0) ==> ls[w] == first
        }),
{
    lemma_fresh_request_gets_merged_headers(raws, json);
    lemma_first_occurrence_wins(raws, json, i);
}

} // verus!
