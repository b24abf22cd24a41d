//! Header merge policy: turns raw `Name: Value` strings into the header
//! assignments that a request receives.
use vstd::prelude::*;
use crate::text::{ascii_fold, eq_ignore_ascii_case, trim, trim_str};

verus! {

/// A header assignment: name and value.
pub type HeaderPair = (Seq<char>, Seq<char>);

/// `k` is the position of the one and only `:` of `s`.
pub open spec fn sole_colon_at(s: Seq<char>, k: int) -> bool {
    0 <= k < s.len() && s[k] == ':' && forall|j: int| 0 <= j < s.len() && j != k ==> #[trigger] s[j] != ':'
}

/// A raw header holds exactly one `:`.
pub open spec fn is_well_formed(s: Seq<char>) -> bool {
    exists|k: int| sole_colon_at(s, k)
}

/// The trimmed name and value of a well-formed raw header; `None` otherwise.
pub open spec fn parse_header(s: Seq<char>) -> Option<HeaderPair> {
    if is_well_formed(s) {
        let k = choose|k: int| sole_colon_at(s, k);
        Some((trim(s.subrange(0, k)), trim(s.subrange(k + 1, s.len() as int))))
    } else {
        None
    }
}

pub open spec fn is_content_type(name: Seq<char>) -> bool {
    eq_ignore_ascii_case(name, "Content-Type"@)
}

pub open spec fn json_media_type() -> Seq<char> {
    "application/json"@
}

/// Some assignment in `hs` carries `name`, up to ASCII case.
pub open spec fn has_name(hs: Seq<HeaderPair>, name: Seq<char>) -> bool {
    exists|i: int| 0 <= i < hs.len() && eq_ignore_ascii_case(#[trigger] hs[i].0, name)
}

/// The value applied for a header named `name` given as `value`.
pub open spec fn applied_value(name: Seq<char>, value: Seq<char>, json: bool) -> Seq<char> {
    if json && is_content_type(name) {
        json_media_type()
    } else {
        value
    }
}

/// Processes the raw headers in order: the first assignment of a name wins;
/// the first malformed raw header is the error.
pub open spec fn merge_prefix(raws: Seq<Seq<char>>, json: bool) -> Result<Seq<HeaderPair>, Seq<char>>
    decreases raws.len(),
{
    if raws.len() == 0 {
        Ok(seq![])
    } else {
        match merge_prefix(raws.drop_last(), json) {
            Err(e) => Err(e),
            Ok(hs) => match parse_header(raws.last()) {
                None => Err(raws.last()),
                Some(p) => if has_name(hs, p.0) {
                    Ok(hs)
                } else {
                    Ok(hs.push((p.0, applied_value(p.0, p.1, json))))
                },
            },
        }
    }
}

/// The full policy: the ordered merge, then a JSON content type where the
/// flag asks for one and none was set.
pub open spec fn merge_headers(raws: Seq<Seq<char>>, json: bool) -> Result<Seq<HeaderPair>, Seq<char>> {
    match merge_prefix(raws, json) {
        Err(e) => Err(e),
        Ok(hs) => if json && !has_name(hs, "Content-type"@) {
            Ok(hs.push(("Content-type"@, json_media_type())))
        } else {
            Ok(hs)
        },
    }
}

/// No two assignments carry the same name, up to ASCII case.
pub open spec fn names_distinct(hs: Seq<HeaderPair>) -> bool {
    forall|i: int, j: int|
        0 <= i < j < hs.len() ==> !eq_ignore_ascii_case(#[trigger] hs[i].0, #[trigger] hs[j].0)
}

pub open spec fn raw_view(v: Seq<&String>) -> Seq<Seq<char>> {
    v.map_values(|h: &String| h@)
}

pub open spec fn malformed_message(raw: Seq<char>) -> Seq<char> {
    "Invalid header format: "@ + raw
}

/// Splits a raw header on its only `:` and trims both parts.
pub fn parse_header_line(raw: &str) -> (r: Option<(String, String)>)
    ensures
        match r {
            None => parse_header(raw@) is None,
            Some(p) => parse_header(raw@) == Some((p.0@, p.1@)),
        },
{
    let n = raw.unicode_len();
    let mut first: Option<usize> = None;
    let mut multiple = false;
    let mut i: usize = 0;
    while i < n
        invariant
            n == raw@.len(),
            i <= n,
            first is None <==> forall|j: int| 0 <= j < i ==> raw@[j] != ':',
            first is Some ==> {
                let k = first->Some_0 as int;
                &&& k < i
                &&& raw@[k] == ':'
                &&& forall|j: int| 0 <= j < k ==> raw@[j] != ':'
                &&& (multiple <==> exists|j: int| k < j < i && raw@[j] == ':')
            },
            first is None ==> !multiple,
        decreases n - i,
    {
        if raw.get_char(i) == ':' {
            if first.is_none() {
                first = Some(i);
            } else {
                multiple = true;
            }
        }
        i = i + 1;
    }
    match first {
        None => {
            assert(!is_well_formed(raw@)) by {
                if is_well_formed(raw@) {
                    let k = choose|k: int| sole_colon_at(raw@, k);
                    assert(raw@[k] != ':');
                }
            }
            None
        },
        Some(k) => {
            if multiple {
                assert(!is_well_formed(raw@)) by {
                    if is_well_formed(raw@) {
                        let m = choose|m: int| sole_colon_at(raw@, m);
                        let j = choose|j: int| k < j < n && raw@[j] == ':';
                        assert(raw@[k as int] != ':' || raw@[j] != ':');
                    }
                }
                None
            } else {
                assert(sole_colon_at(raw@, k as int));
                assert(forall|m: int| sole_colon_at(raw@, m) ==> m == k);
                let name = trim_str(raw.substring_char(0, k));
                let value = trim_str(raw.substring_char(k + 1, n));
                Some((name, value))
            }
        },
    }
}

} // verus!

verus! {

/// The assignments that the policy resolves never repeat a name, up to ASCII
/// case.
pub proof fn lemma_merged_names_distinct(raws: Seq<Seq<char>>, json: bool)
    requires
        merge_headers(raws, json) is Ok,
    ensures
        names_distinct(merge_headers(raws, json)->Ok_0),
{
    lemma_prefix_names_distinct(raws, json);
}

pub proof fn lemma_prefix_names_distinct(raws: Seq<Seq<char>>, json: bool)
    ensures
        merge_prefix(raws, json) is Ok ==> names_distinct(merge_prefix(raws, json)->Ok_0),
    decreases raws.len(),
{
    if raws.len() > 0 {
        lemma_prefix_names_distinct(raws.drop_last(), json);
    }
}

} // verus!

verus! {

/// A raw header made of a name and a value around its only `:` parses to the
/// trimmed name and the trimmed value, and on its own (no JSON override)
/// resolves to exactly that assignment.
pub proof fn lemma_well_formed_header_trimmed(name: Seq<char>, value: Seq<char>)
    requires
        forall|i: int| 0 <= i < name.len() ==> name[i] != ':',
        forall|i: int| 0 <= i < value.len() ==> value[i] != ':',
    ensures
        parse_header(name + seq![':'] + value) == Some((trim(name), trim(value))),
        merge_headers(seq![name + seq![':'] + value], false) == Ok::<Seq<HeaderPair>, Seq<char>>(
            seq![(trim(name), trim(value))],
        ),
{
    let s = name + seq![':'] + value;
    let k = name.len() as int;
    assert(sole_colon_at(s, k)) by {
        assert forall|j: int| 0 <= j < s.len() && j != k implies #[trigger] s[j] != ':' by {
            if j < k {
                assert(s[j] == name[j]);
            } else {
                assert(s[j] == value[j - k - 1]);
            }
        }
    }
    let c = choose|m: int| sole_colon_at(s, m);
    assert(c == k) by {
        if c != k {
            assert(s[k] != ':');
        }
    }
    assert(s.subrange(0, k) =~= name);
    assert(s.subrange(k + 1, s.len() as int) =~= value);
    let raws = seq![s];
    assert(raws.drop_last() =~= Seq::<Seq<char>>::empty());
    assert(raws.len() == 1 && raws.last() == s);
    assert(merge_prefix(raws.drop_last(), false) == Ok::<Seq<HeaderPair>, Seq<char>>(seq![]));
    assert(!has_name(seq![], trim(name)));
    assert(merge_prefix(raws, false) == Ok::<Seq<HeaderPair>, Seq<char>>(
        seq![].push((trim(name), trim(value))),
    ));
    assert(seq![].push((trim(name), trim(value))) =~= seq![(trim(name), trim(value))]);
}

/// Every name that a successfully merged prefix parsed is among the resolved
/// assignments, up to ASCII case.
proof fn lemma_prefix_covers(raws: Seq<Seq<char>>, json: bool)
    ensures
        merge_prefix(raws, json) is Ok ==> forall|i: int|
            0 <= i < raws.len() && #[trigger] parse_header(raws[i]) is Some ==> has_name(
                merge_prefix(raws, json)->Ok_0,
                parse_header(raws[i])->Some_0.0,
            ),
    decreases raws.len(),
{
    if raws.len() > 0 && merge_prefix(raws, json) is Ok {
        let init = raws.drop_last();
        lemma_prefix_covers(init, json);
        let hs0 = merge_prefix(init, json)->Ok_0;
        let hs = merge_prefix(raws, json)->Ok_0;
        assert forall|i: int|
            0 <= i < raws.len() && #[trigger] parse_header(raws[i]) is Some implies has_name(
            hs,
            parse_header(raws[i])->Some_0.0,
        ) by {
            let n = parse_header(raws[i])->Some_0.0;
            if i < init.len() {
                assert(raws[i] == init[i]);
                let w = choose|w: int| 0 <= w < hs0.len() && eq_ignore_ascii_case(#[trigger] hs0[w].0, n);
                assert(hs[w] == hs0[w]);
            } else if !has_name(hs0, n) {
                assert(hs[hs0.len() as int].0 == n);
            } else {
                let w = choose|w: int| 0 <= w < hs0.len() && eq_ignore_ascii_case(#[trigger] hs0[w].0, n);
                assert(hs[w] == hs0[w]);
            }
        }
    }
}

/// A raw header whose name an earlier raw header already gave (up to ASCII
/// case) changes nothing: the first one applies.
pub proof fn lemma_repeated_name_ignored(raws: Seq<Seq<char>>, extra: Seq<char>, json: bool)
    requires
        parse_header(extra) is Some,
        exists|i: int|
            0 <= i < raws.len() && #[trigger] parse_header(raws[i]) is Some && eq_ignore_ascii_case(
                parse_header(raws[i])->Some_0.0,
                parse_header(extra)->Some_0.0,
            ),
    ensures
        merge_headers(raws.push(extra), json) == merge_headers(raws, json),
{
    let all = raws.push(extra);
    assert(all.drop_last() =~= raws);
    if merge_prefix(raws, json) is Ok {
        lemma_prefix_covers(raws, json);
        let hs = merge_prefix(raws, json)->Ok_0;
        let i = choose|i: int|
            0 <= i < raws.len() && #[trigger] parse_header(raws[i]) is Some && eq_ignore_ascii_case(
                parse_header(raws[i])->Some_0.0,
                parse_header(extra)->Some_0.0,
            );
        let n = parse_header(raws[i])->Some_0.0;
        assert(has_name(hs, n));
        let w = choose|w: int| 0 <= w < hs.len() && eq_ignore_ascii_case(#[trigger] hs[w].0, n);
        assert(eq_ignore_ascii_case(hs[w].0, parse_header(extra)->Some_0.0));
    }
}

/// Every resolved name came from a raw header.
proof fn lemma_prefix_names_from_raws(raws: Seq<Seq<char>>, json: bool)
    ensures
        merge_prefix(raws, json) is Ok ==> forall|k: int|
            0 <= k < merge_prefix(raws, json)->Ok_0.len() ==> exists|i: int|
                0 <= i < raws.len() && parse_header(#[trigger] raws[i]) is Some && parse_header(
                    raws[i],
                )->Some_0.0 == (#[trigger] merge_prefix(raws, json)->Ok_0[k]).0,
    decreases raws.len(),
{
    if raws.len() > 0 && merge_prefix(raws, json) is Ok {
        let init = raws.drop_last();
        lemma_prefix_names_from_raws(init, json);
        let hs0 = merge_prefix(init, json)->Ok_0;
        let hs = merge_prefix(raws, json)->Ok_0;
        assert forall|k: int| 0 <= k < hs.len() implies exists|i: int|
            0 <= i < raws.len() && parse_header(#[trigger] raws[i]) is Some && parse_header(
                raws[i],
            )->Some_0.0 == (#[trigger] hs[k]).0 by {
            if k < hs0.len() {
                assert(hs[k] == hs0[k]);
                let i = choose|i: int|
                    0 <= i < init.len() && parse_header(#[trigger] init[i]) is Some && parse_header(
                        init[i],
                    )->Some_0.0 == hs0[k].0;
                assert(raws[i] == init[i]);
            } else {
                assert(raws[raws.len() - 1] == raws.last());
            }
        }
    }
}

/// With the JSON override and no raw header naming `Content-Type`, the
/// resolved headers end with the one `Content-type: application/json`, and no
/// other assignment names a content type.
pub proof fn lemma_json_adds_content_type(raws: Seq<Seq<char>>)
    requires
        forall|i: int|
            0 <= i < raws.len() && #[trigger] parse_header(raws[i]) is Some ==> !is_content_type(
                parse_header(raws[i])->Some_0.0,
            ),
    ensures
        merge_headers(raws, true) is Ok ==> {
            let hs = merge_headers(raws, true)->Ok_0;
            &&& hs.len() > 0
            &&& hs.last() == ("Content-type"@, json_media_type())
            &&& is_content_type(hs.last().0)
            &&& forall|k: int| 0 <= k < hs.len() - 1 ==> !is_content_type(#[trigger] hs[k].0)
        },
{
    reveal_strlit("Content-type");
    reveal_strlit("Content-Type");
    lemma_prefix_names_from_raws(raws, true);
    if merge_prefix(raws, true) is Ok {
        let hs0 = merge_prefix(raws, true)->Ok_0;
        assert forall|k: int| 0 <= k < hs0.len() implies !is_content_type(#[trigger] hs0[k].0) by {
            let i = choose|i: int|
                0 <= i < raws.len() && parse_header(#[trigger] raws[i]) is Some && parse_header(
                    raws[i],
                )->Some_0.0 == hs0[k].0;
        }
        assert(!has_name(hs0, "Content-type"@)) by {
            if has_name(hs0, "Content-type"@) {
                let w = choose|w: int| 0 <= w < hs0.len() && eq_ignore_ascii_case(#[trigger] hs0[w].0, "Content-type"@);
                assert(!is_content_type(hs0[w].0));
                assert forall|j: int| 0 <= j < hs0[w].0.len() implies ascii_fold(#[trigger] hs0[w].0[j])
                    == ascii_fold("Content-Type"@[j]) by {
                    assert(ascii_fold(hs0[w].0[j]) == ascii_fold("Content-type"@[j]));
                }
            }
        }
        let hs = merge_headers(raws, true)->Ok_0;
        assert(hs == hs0.push(("Content-type"@, json_media_type())));
        assert forall|j: int| 0 <= j < "Content-type"@.len() implies ascii_fold(#[trigger] "Content-type"@[j])
            == ascii_fold("Content-Type"@[j]) by {}
    }
}

/// With the JSON override, every resolved content type carries
/// `application/json`, whatever value the raw header gave.
pub proof fn lemma_json_forces_content_type(raws: Seq<Seq<char>>)
    ensures
        merge_headers(raws, true) is Ok ==> forall|k: int|
            0 <= k < merge_headers(raws, true)->Ok_0.len() && is_content_type(
                #[trigger] merge_headers(raws, true)->Ok_0[k].0,
            ) ==> merge_headers(raws, true)->Ok_0[k].1 == json_media_type(),
{
    lemma_prefix_json_values(raws);
}

proof fn lemma_prefix_json_values(raws: Seq<Seq<char>>)
    ensures
        merge_prefix(raws, true) is Ok ==> forall|k: int|
            0 <= k < merge_prefix(raws, true)->Ok_0.len() && is_content_type(
                #[trigger] merge_prefix(raws, true)->Ok_0[k].0,
            ) ==> merge_prefix(raws, true)->Ok_0[k].1 == json_media_type(),
    decreases raws.len(),
{
    if raws.len() > 0 {
        lemma_prefix_json_values(raws.drop_last());
    }
}

} // verus!

verus! {

/// Raw headers that are all well-formed always resolve.
pub proof fn lemma_well_formed_headers_resolve(raws: Seq<Seq<char>>, json: bool)
    requires
        forall|i: int| 0 <= i < raws.len() ==> is_well_formed(#[trigger] raws[i]),
    ensures
        merge_prefix(raws, json) is Ok,
        merge_headers(raws, json) is Ok,
    decreases raws.len(),
{
    if raws.len() > 0 {
        let init = raws.drop_last();
        assert forall|i: int| 0 <= i < init.len() implies is_well_formed(#[trigger] init[i]) by {
            assert(init[i] == raws[i]);
        }
        lemma_well_formed_headers_resolve(init, json);
        assert(is_well_formed(raws[raws.len() - 1]));
    }
}

/// The trimmed name and value of each raw header, in order.
pub open spec fn parsed_all(raws: Seq<Seq<char>>) -> Seq<HeaderPair> {
    raws.map_values(|r: Seq<char>| parse_header(r)->Some_0)
}

/// Well-formed raw headers whose names differ (up to ASCII case) resolve,
/// without the JSON override, to each name and value trimmed, in order.
pub proof fn lemma_distinct_headers_trimmed(raws: Seq<Seq<char>>)
    requires
        forall|i: int| 0 <= i < raws.len() ==> is_well_formed(#[trigger] raws[i]),
        forall|i: int, j: int|
            0 <= i < j < raws.len() ==> !eq_ignore_ascii_case(
                #[trigger] parse_header(raws[i])->Some_0.0,
                #[trigger] parse_header(raws[j])->Some_0.0,
            ),
    ensures
        merge_prefix(raws, false) == Ok::<Seq<HeaderPair>, Seq<char>>(parsed_all(raws)),
        merge_headers(raws, false) == Ok::<Seq<HeaderPair>, Seq<char>>(parsed_all(raws)),
    decreases raws.len(),
{
    if raws.len() > 0 {
        let init = raws.drop_last();
        let n = raws.len() - 1;
        assert forall|i: int| 0 <= i < init.len() implies is_well_formed(#[trigger] init[i]) by {
            assert(init[i] == raws[i]);
        }
        assert forall|i: int, j: int| 0 <= i < j < init.len() implies !eq_ignore_ascii_case(
            #[trigger] parse_header(init[i])->Some_0.0,
            #[trigger] parse_header(init[j])->Some_0.0,
        ) by {
            assert(init[i] == raws[i] && init[j] == raws[j]);
        }
        lemma_distinct_headers_trimmed(init);
        let hs = parsed_all(init);
        assert(is_well_formed(raws[n]));
        let p = parse_header(raws.last())->Some_0;
        assert(!has_name(hs, p.0)) by {
            if has_name(hs, p.0) {
                let w = choose|w: int| 0 <= w < hs.len() && eq_ignore_ascii_case(#[trigger] hs[w].0, p.0);
                assert(init[w] == raws[w]);
                assert(!eq_ignore_ascii_case(parse_header(raws[w])->Some_0.0, parse_header(raws[n])->Some_0.0));
            }
        }
        assert(hs.push((p.0, p.1)) =~= parsed_all(raws));
    } else {
        assert(parsed_all(raws) =~= Seq::<HeaderPair>::empty());
    }
}

} // verus!

verus! {

/// The first raw header that gives a name (up to ASCII case) decides it: the
/// resolved assignments hold that name with its value (as applied), and every
/// assignment carrying the name up to ASCII case is that one.
pub proof fn lemma_first_occurrence_wins(raws: Seq<Seq<char>>, json: bool, i: int)
    requires
        forall|k: int| 0 <= k < raws.len() ==> is_well_formed(#[trigger] raws[k]),
        0 <= i < raws.len(),
        forall|k: int|
            0 <= k < i ==> !eq_ignore_ascii_case(
                #[trigger] parse_header(raws[k])->Some_0.0,
                parse_header(raws[i])->Some_0.0,
            ),
    ensures
        merge_headers(raws, json) is Ok,
        ({
            let hs = merge_headers(raws, json)->Ok_0;
            let p = parse_header(raws[i])->Some_0;
            let first = (p.0, applied_value(p.0, p.1, json));
            &&& exists|w: int| 0 <= w < hs.len() && hs[w] == first
            &&& forall|w: int|
                0 <= w < hs.len() && eq_ignore_ascii_case(#[trigger] hs[w].0, p.0) ==> hs[w] == first
        }),
{
    lemma_well_formed_headers_resolve(raws, json);
    lemma_first_in_prefix(raws, json, i);
    lemma_merged_names_distinct(raws, json);
    let hs0 = merge_prefix(raws, json)->Ok_0;
    let hs = merge_headers(raws, json)->Ok_0;
    let p = parse_header(raws[i])->Some_0;
    let first = (p.0, applied_value(p.0, p.1, json));
    let w0 = choose|w: int| 0 <= w < hs0.len() && hs0[w] == first;
    assert(hs[w0] == first);
    assert forall|w: int|
        0 <= w < hs.len() && eq_ignore_ascii_case(#[trigger] hs[w].0, p.0) implies hs[w] == first by {
        if w != w0 {
            assert forall|j: int| 0 <= j < hs[w].0.len() implies ascii_fold(#[trigger] hs[w].0[j])
                == ascii_fold(hs[w0].0[j]) by {
                assert(ascii_fold(hs[w].0[j]) == ascii_fold(p.0[j]));
            }
            if w < w0 {
                assert(!eq_ignore_ascii_case(hs[w].0, hs[w0].0));
            } else {
                assert(!eq_ignore_ascii_case(hs[w0].0, hs[w].0));
                assert forall|j: int| 0 <= j < hs[w0].0.len() implies ascii_fold(#[trigger] hs[w0].0[j])
                    == ascii_fold(hs[w].0[j]) by {
                    assert(ascii_fold(hs[w].0[j]) == ascii_fold(p.0[j]));
                }
            }
        }
    }
}

proof fn lemma_first_in_prefix(raws: Seq<Seq<char>>, json: bool, i: int)
    requires
        forall|k: int| 0 <= k < raws.len() ==> is_well_formed(#[trigger] raws[k]),
        0 <= i < raws.len(),
        forall|k: int|
            0 <= k < i ==> !eq_ignore_ascii_case(
                #[trigger] parse_header(raws[k])->Some_0.0,
                parse_header(raws[i])->Some_0.0,
            ),
    ensures
        merge_prefix(raws, json) is Ok,
        exists|w: int|
            0 <= w < merge_prefix(raws, json)->Ok_0.len() && merge_prefix(raws, json)->Ok_0[w] == (
                parse_header(raws[i])->Some_0.0,
                applied_value(parse_header(raws[i])->Some_0.0, parse_header(raws[i])->Some_0.1, json),
            ),
    decreases raws.len(),
{
    lemma_well_formed_headers_resolve(raws, json);
    let init = raws.drop_last();
    let p = parse_header(raws[i])->Some_0;
    let first = (p.0, applied_value(p.0, p.1, json));
    assert forall|k: int| 0 <= k < init.len() implies is_well_formed(#[trigger] init[k]) by {
        assert(init[k] == raws[k]);
    }
    lemma_well_formed_headers_resolve(init, json);
    let hs0 = merge_prefix(init, json)->Ok_0;
    let hs = merge_prefix(raws, json)->Ok_0;
    if i < init.len() {
        assert forall|k: int| 0 <= k < i implies !eq_ignore_ascii_case(
            #[trigger] parse_header(init[k])->Some_0.0,
            parse_header(init[i])->Some_0.0,
        ) by {
            assert(init[k] == raws[k]);
        }
        assert(init[i] == raws[i]);
        lemma_first_in_prefix(init, json, i);
        let w = choose|w: int| 0 <= w < hs0.len() && hs0[w] == first;
        assert(hs[w] == hs0[w]);
    } else {
        lemma_prefix_names_from_raws(init, json);
        assert(!has_name(hs0, p.0)) by {
            if has_name(hs0, p.0) {
                let w = choose|w: int| 0 <= w < hs0.len() && eq_ignore_ascii_case(#[trigger] hs0[w].0, p.0);
                let k = choose|k: int|
                    0 <= k < init.len() && parse_header(#[trigger] init[k]) is Some && parse_header(
                        init[k],
                    )->Some_0.0 == (#[trigger] hs0[w]).0;
                assert(init[k] == raws[k]);
                assert(!eq_ignore_ascii_case(parse_header(raws[k])->Some_0.0, p.0));
            }
        }
        assert(raws.last() == raws[i]);
        assert(hs == hs0.push(first));
        assert(hs[hs0.len() as int] == first);
    }
}

} // verus!
