//! Response presentation: the text printed for a response, by selected
//! fields or in include mode.
use vstd::prelude::*;
use crate::text::str_equal;

verus! {

/// The decimal digits of `n`, most significant first.
pub open spec fn decimal(n: nat) -> Seq<char>
    decreases n,
{
    if n < 10 {
        seq!["0123456789"@[n as int]]
    } else {
        decimal(n / 10).push("0123456789"@[(n % 10) as int])
    }
}

/// The decimal text of `n`.
pub fn decimal_text(n: u16) -> (r: String)
    ensures
        r@ == decimal(n as nat),
{
    let digits = "0123456789";
    proof {
        reveal_strlit("0123456789");
    }
    let mut acc = String::new();
    let mut m: u16 = n;
    loop
        invariant
            m >= 1 ==> decimal(n as nat) == decimal(m as nat) + acc@,
            m == 0 ==> n == 0 && acc@.len() == 0,
            digits@ == "0123456789"@,
            digits@.len() == 10,
        decreases m,
    {
        let d = (m % 10) as usize;
        let digit = digits.substring_char(d, d + 1);
        let ghost old_acc = acc@;
        acc = String::from_str(digit).concat(acc.as_str());
        assert(digit@ =~= seq!["0123456789"@[d as int]]);
        if m < 10 {
            assert(decimal(n as nat) =~= acc@) by {
                if m >= 1 {
                    assert(decimal(m as nat) == seq!["0123456789"@[m as int]]);
                } else {
                    assert(decimal(0) == seq!["0123456789"@[0]]);
                }
            }
            return acc;
        }
        assert(decimal(m as nat) == decimal((m / 10) as nat).push("0123456789"@[(m % 10) as int]));
        assert(decimal(n as nat) =~= decimal((m / 10) as nat) + acc@);
        m = m / 10;
    }
}

pub open spec fn bold(label: Seq<char>) -> Seq<char> {
    "\x1b[1m"@ + label + "\x1b[0m"@
}

/// How many times a list of print selectors names each field.
pub struct Selection {
    pub status_code: usize,
    pub status_text: usize,
    pub headers: usize,
    pub body: usize,
}

/// The number of selectors in `prints` that read `field`.
pub open spec fn selector_count(prints: Seq<String>, field: Seq<char>) -> nat
    decreases prints.len(),
{
    if prints.len() == 0 {
        0
    } else {
        selector_count(prints.drop_last(), field) + if prints.last()@ == field {
            1nat
        } else {
            0nat
        }
    }
}

fn count_selector(prints: &Vec<String>, field: &str) -> (r: usize)
    ensures
        r as nat == selector_count(prints@, field@),
{
    let mut n: usize = 0;
    let mut i: usize = 0;
    while i < prints.len()
        invariant
            i <= prints.len(),
            n <= i,
            n as nat == selector_count(prints@.subrange(0, i as int), field@),
        decreases prints.len() - i,
    {
        assert(prints@.subrange(0, i + 1).drop_last() =~= prints@.subrange(0, i as int));
        if str_equal(prints[i].as_str(), field) {
            n = n + 1;
        }
        i = i + 1;
    }
    assert(prints@.subrange(0, prints@.len() as int) =~= prints@);
    n
}

/// Counts the selectors of each field; unknown ones are ignored, and a field
/// named k times is printed k times.
pub fn pick_prints(prints: &Vec<String>) -> (r: Selection)
    ensures
        r.status_code as nat == selector_count(prints@, "status_code"@),
        r.status_text as nat == selector_count(prints@, "status_text"@),
        r.headers as nat == selector_count(prints@, "headers"@),
        r.body as nat == selector_count(prints@, "body"@),
{
    Selection {
        status_code: count_selector(prints, "status_code"),
        status_text: count_selector(prints, "status_text"),
        headers: count_selector(prints, "headers"),
        body: count_selector(prints, "body"),
    }
}

/// `s` written `n` times.
pub open spec fn repeated(s: Seq<char>, n: nat) -> Seq<char>
    decreases n,
{
    if n == 0 {
        Seq::empty()
    } else {
        repeated(s, (n - 1) as nat) + s
    }
}

/// One line per header, as `name: value` with the name in bold.
pub open spec fn header_block(hs: Seq<(String, String)>) -> Seq<char>
    decreases hs.len(),
{
    if hs.len() == 0 {
        Seq::empty()
    } else {
        header_block(hs.drop_last()) + bold(hs.last().0@ + ":"@) + " "@ + hs.last().1@ + "\n"@
    }
}

pub open spec fn labeled_line(label: Seq<char>, value: Seq<char>) -> Seq<char> {
    bold(label) + " "@ + value + "\n"@
}

/// The text for the selected fields, in the fixed order status code, status
/// text, headers, body, each as many times as it was selected.
pub open spec fn selected_text(
    sel: Selection,
    status: u16,
    status_text: Seq<char>,
    hs: Seq<(String, String)>,
    body: Seq<char>,
) -> Seq<char> {
    repeated(labeled_line("Status Code:"@, decimal(status as nat)), sel.status_code as nat)
        + repeated(labeled_line("Status Text:"@, status_text), sel.status_text as nat)
        + repeated(header_block(hs), sel.headers as nat)
        + repeated(labeled_line("Body:"@, body), sel.body as nat)
}

fn push_labeled(out: &mut String, label: &str, value: &str)
    ensures
        final(out)@ == old(out)@ + labeled_line(label@, value@),
{
    out.append("\x1b[1m");
    out.append(label);
    out.append("\x1b[0m ");
    out.append(value);
    out.append("\n");
    proof {
        reveal_strlit("\x1b[0m ");
        reveal_strlit("\x1b[0m");
        reveal_strlit(" ");
    }
    assert(final(out)@ =~= old(out)@ + labeled_line(label@, value@));
}

fn push_headers(out: &mut String, hs: &Vec<(String, String)>)
    ensures
        final(out)@ == old(out)@ + header_block(hs@),
{
    let ghost start = out@;
    let mut i: usize = 0;
    while i < hs.len()
        invariant
            i <= hs.len(),
            out@ == start + header_block(hs@.subrange(0, i as int)),
        decreases hs.len() - i,
    {
        let ghost before = out@;
        let mut label = String::from_str(hs[i].0.as_str());
        label.append(":");
        push_labeled(out, label.as_str(), hs[i].1.as_str());
        assert(hs@.subrange(0, i + 1).drop_last() =~= hs@.subrange(0, i as int));
        assert(out@ =~= start + header_block(hs@.subrange(0, i + 1)));
        i = i + 1;
    }
    assert(hs@.subrange(0, hs@.len() as int) =~= hs@);
}

fn push_labeled_times(out: &mut String, label: &str, value: &str, times: usize)
    ensures
        final(out)@ == old(out)@ + repeated(labeled_line(label@, value@), times as nat),
{
    let ghost start = out@;
    let mut k: usize = 0;
    while k < times
        invariant
            k <= times,
            out@ == start + repeated(labeled_line(label@, value@), k as nat),
        decreases times - k,
    {
        push_labeled(out, label, value);
        k = k + 1;
        assert(out@ =~= start + repeated(labeled_line(label@, value@), k as nat));
    }
}

fn push_headers_times(out: &mut String, hs: &Vec<(String, String)>, times: usize)
    ensures
        final(out)@ == old(out)@ + repeated(header_block(hs@), times as nat),
{
    let ghost start = out@;
    let mut k: usize = 0;
    while k < times
        invariant
            k <= times,
            out@ == start + repeated(header_block(hs@), k as nat),
        decreases times - k,
    {
        push_headers(out, hs);
        k = k + 1;
        assert(out@ =~= start + repeated(header_block(hs@), k as nat));
    }
}

/// The text printed for a response under a selection of fields. `body` is
/// read only where the body is selected.
pub fn render_prints(
    sel: &Selection,
    status: u16,
    status_text: &str,
    headers: &Vec<(String, String)>,
    body: &str,
) -> (r: String)
    ensures
        r@ == selected_text(*sel, status, status_text@, headers@, body@),
{
    let mut out = String::new();
    let code = decimal_text(status);
    push_labeled_times(&mut out, "Status Code:", code.as_str(), sel.status_code);
    push_labeled_times(&mut out, "Status Text:", status_text, sel.status_text);
    push_headers_times(&mut out, headers, sel.headers);
    push_labeled_times(&mut out, "Body:", body, sel.body);
    assert(out@ =~= selected_text(*sel, status, status_text@, headers@, body@));
    out
}

pub open spec fn entry_heading(name: Seq<char>) -> Seq<char> {
    labeled_line("Collection:"@, name) + "\n"@
}

/// The text printed for one collection entry: its name under a bold
/// `Collection:` label and a blank line, then the selected fields.
pub fn render_entry(
    name: &str,
    sel: &Selection,
    status: u16,
    status_text: &str,
    headers: &Vec<(String, String)>,
    body: &str,
) -> (r: String)
    ensures
        r@ == entry_heading(name@) + selected_text(*sel, status, status_text@, headers@, body@),
{
    let mut out = String::new();
    push_labeled(&mut out, "Collection:", name);
    out.append("\n");
    let rest = render_prints(sel, status, status_text, headers, body);
    out.append(rest.as_str());
    out
}

/// Include mode: protocol version and status line, the headers, a blank line,
/// then the body as it is.
pub open spec fn include_text(
    version: Seq<char>,
    status: u16,
    status_text: Seq<char>,
    hs: Seq<(String, String)>,
    body: Seq<char>,
) -> Seq<char> {
    version + " "@ + decimal(status as nat) + " "@ + status_text + "\n"@ + header_block(hs) + "\n"@
        + body
}

/// The text printed for a response in include mode.
pub fn render_include(
    version: &str,
    status: u16,
    status_text: &str,
    headers: &Vec<(String, String)>,
    body: &str,
) -> (r: String)
    ensures
        r@ == include_text(version@, status, status_text@, headers@, body@),
{
    let mut out = String::from_str(version);
    out.append(" ");
    let code = decimal_text(status);
    out.append(code.as_str());
    out.append(" ");
    out.append(status_text);
    out.append("\n");
    push_headers(&mut out, headers);
    out.append("\n");
    out.append(body);
    assert(out@ =~= include_text(version@, status, status_text@, headers@, body@));
    out
}

} // verus!

verus! {

/// Selectors that name neither `status_text` nor `headers` print no status
/// text and no header line: only the status code line, then the body line,
/// each once per selector.
pub proof fn lemma_code_and_body_only(
    prints: Seq<String>,
    sel: Selection,
    status: u16,
    status_text: Seq<char>,
    hs: Seq<(String, String)>,
    body: Seq<char>,
)
    requires
        sel.status_code as nat == selector_count(prints, "status_code"@),
        sel.status_text as nat == selector_count(prints, "status_text"@),
        sel.headers as nat == selector_count(prints, "headers"@),
        sel.body as nat == selector_count(prints, "body"@),
        forall|i: int| 0 <= i < prints.len() ==> #[trigger] prints[i]@ != "status_text"@ && prints[i]@
            != "headers"@,
    ensures
        selected_text(sel, status, status_text, hs, body) == repeated(
            labeled_line("Status Code:"@, decimal(status as nat)),
            sel.status_code as nat,
        ) + repeated(labeled_line("Body:"@, body), sel.body as nat),
{
    lemma_count_absent(prints, "status_text"@);
    lemma_count_absent(prints, "headers"@);
    assert(repeated(labeled_line("Status Text:"@, status_text), 0) =~= Seq::<char>::empty());
    assert(repeated(header_block(hs), 0) =~= Seq::<char>::empty());
    let a = repeated(labeled_line("Status Code:"@, decimal(status as nat)), sel.status_code as nat);
    let b = repeated(labeled_line("Body:"@, body), sel.body as nat);
    assert(a + Seq::<char>::empty() + Seq::<char>::empty() + b =~= a + b);
}

proof fn lemma_count_absent(prints: Seq<String>, field: Seq<char>)
    requires
        forall|i: int| 0 <= i < prints.len() ==> #[trigger] prints[i]@ != field,
    ensures
        selector_count(prints, field) == 0,
    decreases prints.len(),
{
    if prints.len() > 0 {
        let init = prints.drop_last();
        assert forall|i: int| 0 <= i < init.len() implies #[trigger] init[i]@ != field by {
            assert(init[i] == prints[i]);
        }
        lemma_count_absent(init, field);
        assert(prints[prints.len() - 1]@ != field);
    }
}

} // verus!
