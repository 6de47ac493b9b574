//! What a command shows: lines for people and one JSON document for programs.
//! Text that comes from elsewhere is sanitized before it reaches the terminal.

use serde_json::Value;
use vstd::prelude::*;
use vstd::string::*;

use crate::json;
use crate::json::Json;
use crate::text;

verus! {

/// `sanitize` accepts every text and turns it into what `clean` says.
pub open spec fn cleans<F: Fn(&str) -> String>(
    sanitize: F,
    clean: spec_fn(Seq<char>) -> Seq<char>,
) -> bool {
    &&& forall|s: &str| #[trigger] sanitize.requires((s,))
    &&& forall|s: &str, r: String| #[trigger] sanitize.ensures((s,), r) ==> r@ == clean(s@)
}

/// `sanitize` accepts every text, and what it gives depends on the text alone.
pub open spec fn sanitizer<F: Fn(&str) -> String>(sanitize: F) -> bool {
    exists|clean: spec_fn(Seq<char>) -> Seq<char>| #[trigger] cleans(sanitize, clean)
}

/// What `sanitize` makes of a text.
pub open spec fn cleaner<F: Fn(&str) -> String>(sanitize: F) -> spec_fn(Seq<char>) -> Seq<char> {
    choose|clean: spec_fn(Seq<char>) -> Seq<char>| #[trigger] cleans(sanitize, clean)
}

/// A text, sanitized.
pub(crate) fn cleaned<F: Fn(&str) -> String>(sanitize: &F, s: &str) -> (r: String)
    requires
        sanitizer(*sanitize),
    ensures
        r@ == cleaner(*sanitize)(s@),
{
    sanitize(s)
}

/// Each text of a list, sanitized.
pub(crate) fn cleaned_all<F: Fn(&str) -> String>(sanitize: &F, ts: &Vec<String>) -> (r: Vec<
    String,
>)
    requires
        sanitizer(*sanitize),
    ensures
        text::texts(r@) == text::texts(ts@).map_values(cleaner(*sanitize)),
{
    let mut out: Vec<String> = Vec::new();
    let mut i: usize = 0;
    while i < ts.len()
        invariant
            sanitizer(*sanitize),
            i <= ts@.len(),
            out@.len() == i,
            forall|j: int| 0 <= j < i ==> (#[trigger] out@[j])@ == cleaner(*sanitize)(ts@[j]@),
        decreases ts@.len() - i,
    {
        out.push(cleaned(sanitize, ts[i].as_str()));
        i += 1;
    }
    assert(text::texts(out@) =~= text::texts(ts@).map_values(cleaner(*sanitize)));
    out
}

/// Each text on a line of its own, two blanks in, behind what comes before.
pub open spec fn indented(ts: Seq<Seq<char>>) -> Seq<char>
    decreases ts.len(),
{
    if ts.len() == 0 {
        seq![]
    } else {
        indented(ts.drop_last()) + "\n  "@ + ts.last()
    }
}

/// Each text on a line of its own, two blanks in, behind what comes before.
pub(crate) fn indented_text(ts: &Vec<String>) -> (r: String)
    ensures
        r@ == indented(text::texts(ts@)),
{
    let mut out = String::new();
    let mut i: usize = 0;
    let ghost all = text::texts(ts@);
    while i < ts.len()
        invariant
            i <= ts@.len(),
            all == text::texts(ts@),
            out@ == indented(all.take(i as int)),
        decreases ts@.len() - i,
    {
        assert(all.take(i + 1).drop_last() =~= all.take(i as int));
        out.append("\n  ");
        out.append(ts[i].as_str());
        i += 1;
    }
    assert(all.take(i as int) =~= all);
    out
}

/// What a command shows.
pub struct Output {
    /// The lines for people.
    pub lines: Vec<String>,
    /// The document for programs.
    pub doc: Value,
}

/// What an output holds.
pub struct OutputView {
    pub lines: Seq<Seq<char>>,
    pub doc: Json,
}

impl View for Output {
    type V = OutputView;

    open spec fn view(&self) -> OutputView {
        OutputView { lines: text::texts(self.lines@), doc: json::json(self.doc) }
    }
}

/// Appends one line.
pub(crate) fn say(lines: &mut Vec<String>, line: String)
    ensures
        text::texts(final(lines)@) == text::texts(old(lines)@).push(line@),
{
    lines.push(line);
    assert(text::texts(lines@) =~= text::texts(old(lines)@).push(line@));
}

/// The document that a failed command leaves.
pub open spec fn failure(error: Seq<char>) -> Json {
    Json::Object(map!["ok"@ => Json::Bool(false), "error"@ => Json::Text(error)])
}

/// The document that a failed command leaves.
pub fn failure_doc(error: &str) -> (r: Value)
    ensures
        json::json(r) == failure(error@),
{
    json::with_text(json::with_bool(json::empty_object(), "ok", false), "error", error)
}

} // verus!
