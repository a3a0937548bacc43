use vstd::prelude::*;
use crate::model::Position;

verus! {

/// A comment directive that suppresses instrumentation of the whole file.
pub const FILE_HINT_PATTERN: &'static str = r"^\s*istanbul\s+ignore\s+(file)(\W|$)";

/// A comment directive that suppresses instrumentation of one node or arm.
pub const NODE_HINT_PATTERN: &'static str = r"^\s*istanbul\s+ignore\s+(if|else|next)(\W|$)";

/// The suppression that a node's comments ask for.
#[derive(Clone, Copy, Debug, PartialEq, Eq, Structural)]
pub enum IgnoreVerdict {
    NoHint,
    Next,
    If,
    Else,
}

/// A comment attached to a position of the source, before (leading) or
/// after (trailing) the code there.
pub struct Comment {
    pub pos: Position,
    pub leading: bool,
    pub text: String,
}

/// The comments of one file, in source order.
pub struct CommentStore {
    pub comments: Vec<Comment>,
}

pub struct CommentModel {
    pub pos: Position,
    pub leading: bool,
    pub text: Seq<char>,
}

impl View for Comment {
    type V = CommentModel;

    open spec fn view(&self) -> CommentModel {
        CommentModel { pos: self.pos, leading: self.leading, text: self.text@ }
    }
}

impl View for CommentStore {
    type V = Seq<CommentModel>;

    open spec fn view(&self) -> Seq<CommentModel> {
        self.comments@.map_values(|c: Comment| c@)
    }
}

/// The text of the first capture group of the leftmost match of `pattern`
/// in `text`; `None` where there is no match, where that group takes no part
/// in the match, or where `pattern` does not compile.
pub uninterp spec fn first_capture(pattern: Seq<char>, text: Seq<char>) -> Option<Seq<char>>;

/// Relies on `regex::Regex::new` (an error for a pattern that does not
/// compile), `Regex::captures` (the leftmost match, if any) and
/// `Captures::get(1)` (the text of the first group, if it took part).
#[verifier::external_body]
fn regex_first_capture(pattern: &str, text: &str) -> (r: Option<String>)
    ensures
        match r {
            Some(s) => first_capture(pattern@, text@) == Some(s@),
            None => first_capture(pattern@, text@) is None,
        },
{
    let re = match regex::Regex::new(pattern) {
        Ok(re) => re,
        Err(_) => return None,
    };
    match re.captures(text) {
        Some(caps) => match caps.get(1) {
            Some(m) => Some(m.as_str().to_string()),
            None => None,
        },
        None => None,
    }
}

/// The verdict that a directive's keyword names.
pub open spec fn verdict_of(keyword: Option<Seq<char>>) -> IgnoreVerdict {
    match keyword {
        Some(k) => if k == "next"@ {
            IgnoreVerdict::Next
        } else if k == "if"@ {
            IgnoreVerdict::If
        } else if k == "else"@ {
            IgnoreVerdict::Else
        } else {
            IgnoreVerdict::NoHint
        },
        None => IgnoreVerdict::NoHint,
    }
}

/// The verdict of one comment's text.
pub open spec fn comment_verdict(text: Seq<char>) -> IgnoreVerdict {
    verdict_of(first_capture(NODE_HINT_PATTERN@, text))
}

/// Whether one comment's text asks to skip the whole file.
pub open spec fn comment_ignores_file(text: Seq<char>) -> bool {
    first_capture(FILE_HINT_PATTERN@, text) is Some
}

/// The verdict of the first of `cs[from..]` at `pos` on the given side whose
/// text carries a node directive; `None` where none does.
pub open spec fn first_verdict_from(cs: Seq<CommentModel>, pos: Position, leading: bool, from: int) -> IgnoreVerdict
    decreases cs.len() - from,
{
    if from < 0 || from >= cs.len() {
        IgnoreVerdict::NoHint
    } else if cs[from].pos == pos && cs[from].leading == leading && comment_verdict(cs[from].text)
        != IgnoreVerdict::NoHint {
        comment_verdict(cs[from].text)
    } else {
        first_verdict_from(cs, pos, leading, from + 1)
    }
}

/// The verdict for a node that spans `lo` to `hi`: a directive trailing its
/// end comes before one leading its start.
pub open spec fn hint_verdict(cs: Seq<CommentModel>, lo: Position, hi: Position) -> IgnoreVerdict {
    let t = first_verdict_from(cs, hi, false, 0);
    if t != IgnoreVerdict::NoHint {
        t
    } else {
        first_verdict_from(cs, lo, true, 0)
    }
}

/// Whether any comment leading or trailing either end of the file asks to
/// skip the whole file.
pub open spec fn file_ignored(cs: Seq<CommentModel>, lo: Position, hi: Position) -> bool {
    exists|i: int|
        0 <= i < cs.len() && ((#[trigger] cs[i]).pos == lo || cs[i].pos == hi)
            && comment_ignores_file(cs[i].text)
}

/// Whether the comments at either end of a file, leading or trailing, hold a
/// whole-file directive.
pub fn should_ignore_file(comments: &CommentStore, lo: Position, hi: Position) -> (r: bool)
    ensures
        r == file_ignored(comments@, lo, hi),
{
    let mut i: usize = 0;
    while i < comments.comments.len()
        invariant
            i <= comments@.len(),
            forall|k: int|
                0 <= k < i ==> !(((#[trigger] comments@[k]).pos == lo || comments@[k].pos == hi)
                    && comment_ignores_file(comments@[k].text)),
        decreases comments@.len() - i,
    {
        let c = &comments.comments[i];
        if c.pos == lo || c.pos == hi {
            let cap = regex_first_capture(FILE_HINT_PATTERN, c.text.as_str());
            if cap.is_some() {
                assert(comments@[i as int] == c@);
                return true;
            }
        }
        assert(comments@[i as int] == c@);
        i = i + 1;
    }
    false
}

/// The verdict of the first comment at `pos` on the given side whose text
/// carries a node directive.
fn first_verdict(comments: &CommentStore, pos: Position, leading: bool) -> (r: IgnoreVerdict)
    ensures
        r == first_verdict_from(comments@, pos, leading, 0),
{
    let n = comments.comments.len();
    let mut i: usize = 0;
    while i < n
        invariant
            n == comments@.len(),
            i <= n,
            first_verdict_from(comments@, pos, leading, 0) == first_verdict_from(
                comments@,
                pos,
                leading,
                i as int,
            ),
        decreases n - i,
    {
        let c = &comments.comments[i];
        assert(comments@[i as int] == c@);
        if c.pos == pos && c.leading == leading {
            let v = verdict_of_text(&c.text);
            if v != IgnoreVerdict::NoHint {
                return v;
            }
        }
        i = i + 1;
    }
    IgnoreVerdict::NoHint
}

/// The suppression that the comments ask for a node spanning `lo` to `hi`:
/// the first directive trailing `hi`, else the first leading `lo`.
pub fn lookup_hint_comments(comments: &CommentStore, lo: Position, hi: Position) -> (r:
    IgnoreVerdict)
    ensures
        r == hint_verdict(comments@, lo, hi),
{
    let t = first_verdict(comments, hi, false);
    if t != IgnoreVerdict::NoHint {
        t
    } else {
        first_verdict(comments, lo, true)
    }
}

/// The verdict of a comment's text.
pub fn verdict_of_text(text: &String) -> (r: IgnoreVerdict)
    ensures
        r == comment_verdict(text@),
{
    let cap = regex_first_capture(NODE_HINT_PATTERN, text.as_str());
    keyword_verdict(&cap)
}

/// The verdict that a directive's captured keyword names.
pub fn keyword_verdict(keyword: &Option<String>) -> (r: IgnoreVerdict)
    ensures
        r == verdict_of(
            match keyword {
                Some(k) => Some(k@),
                None => None,
            },
        ),
{
    proof {
        reveal_strlit("next");
        reveal_strlit("if");
        reveal_strlit("else");
    }
    match keyword {
        Some(k) => {
            if *k == "next".to_owned() {
                IgnoreVerdict::Next
            } else if *k == "if".to_owned() {
                IgnoreVerdict::If
            } else if *k == "else".to_owned() {
                IgnoreVerdict::Else
            } else {
                IgnoreVerdict::NoHint
            }
        },
        None => IgnoreVerdict::NoHint,
    }
}

} // verus!
