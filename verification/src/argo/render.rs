//! What comes back from rendering an application, and the text it amounts
//! to.

use crate::error::Error;
use crate::util::views;
use vstd::prelude::*;
use vstd::string::StringExecFns;

verus! {

/// The text that `String::from_utf8_lossy` decodes from bytes: the bytes
/// read as UTF-8, with a replacement character for what is not valid.
pub uninterp spec fn lossy_text(bytes: Seq<u8>) -> Seq<char>;

/// Whether a character has the Unicode property `White_Space`, which is
/// what `char::is_whitespace` tests and `str::trim` removes: tab to
/// carriage return, space, next line, and the spaces and separators above
/// U+007F.
pub open spec fn white_space(c: char) -> bool {
    let n = c as u32;
    ||| 0x09 <= n <= 0x0D
    ||| n == 0x20
    ||| n == 0x85
    ||| n == 0xA0
    ||| n == 0x1680
    ||| 0x2000 <= n <= 0x200A
    ||| n == 0x2028
    ||| n == 0x2029
    ||| n == 0x202F
    ||| n == 0x205F
    ||| n == 0x3000
}

/// Whether a character is white space, which trimming removes.
pub fn is_white_space(c: char) -> (r: bool)
    ensures
        r == white_space(c),
{
    let n = c as u32;
    0x09 <= n && n <= 0x0D || n == 0x20 || n == 0x85 || n == 0xA0 || n == 0x1680 || 0x2000 <= n
        && n <= 0x200A || n == 0x2028 || n == 0x2029 || n == 0x202F || n == 0x205F || n == 0x3000
}

/// How many characters of white space a text starts with.
pub open spec fn leading_space(text: Seq<char>) -> nat
    decreases text.len(),
{
    if text.len() == 0 || !white_space(text[0]) {
        0
    } else {
        1 + leading_space(text.drop_first())
    }
}

/// How many characters of white space a text ends with.
pub open spec fn trailing_space(text: Seq<char>) -> nat
    decreases text.len(),
{
    if text.len() == 0 || !white_space(text.last()) {
        0
    } else {
        1 + trailing_space(text.drop_last())
    }
}

/// A text without the white space at its start and at its end.
pub open spec fn trimmed_text(text: Seq<char>) -> Seq<char> {
    if leading_space(text) >= text.len() {
        Seq::empty()
    } else {
        text.subrange(leading_space(text) as int, text.len() - trailing_space(text))
    }
}

/// Calls `String::from_utf8_lossy`. Trusted: the text is a function of the
/// bytes alone, named `lossy_text`.
#[verifier::external_body]
fn from_utf8_lossy(bytes: &Vec<u8>) -> (text: String)
    ensures
        text@ == lossy_text(bytes@),
{
    String::from_utf8_lossy(bytes).into_owned()
}

/// Calls `str::trim`. Trusted: the result is the text without the white
/// space at its start and at its end.
#[verifier::external_body]
fn trim(text: &str) -> (r: &str)
    ensures
        r@ == trimmed_text(text@),
{
    text.trim()
}

/// The texts one after the other, with nothing between them.
pub open spec fn concatenated(texts: Seq<Seq<char>>) -> Seq<char>
    decreases texts.len(),
{
    if texts.len() == 0 {
        Seq::empty()
    } else {
        concatenated(texts.drop_last()) + texts.last()
    }
}

/// Joins the contents of files into one text, in the order given and
/// without separators.
pub fn join_contents(files: &Vec<String>) -> (text: String)
    ensures
        text@ == concatenated(views(files@)),
{
    let mut text = String::new();
    let mut i: usize = 0;
    while i < files.len()
        invariant
            i <= files.len(),
            text@ == concatenated(views(files@).subrange(0, i as int)),
        decreases files.len() - i,
    {
        proof {
            let next = views(files@).subrange(0, i + 1);
            assert(next.drop_last() =~= views(files@).subrange(0, i as int));
            assert(next.last() == files@[i as int]@);
        }
        text.append(files[i].as_str());
        i += 1;
    }
    assert(views(files@).subrange(0, i as int) =~= views(files@));
    text
}

/// What rendering one application gave.
#[derive(Debug, Clone, PartialEq, Eq)]
pub enum RenderResult {
    /// The contents of the files of a repository path, one text for each
    /// file.
    Files(Vec<String>),
    /// What the templating command wrote to its standard output.
    Stdout(Vec<u8>),
    /// The directory could not be read, or the command could not be run or
    /// reported failure.
    Failed,
}

/// The model of a render result.
pub enum RenderResultView {
    Files(Seq<Seq<char>>),
    Stdout(Seq<u8>),
    Failed,
}

impl View for RenderResult {
    type V = RenderResultView;

    open spec fn view(&self) -> RenderResultView {
        match self {
            RenderResult::Files(files) => RenderResultView::Files(views(files@)),
            RenderResult::Stdout(bytes) => RenderResultView::Stdout(bytes@),
            RenderResult::Failed => RenderResultView::Failed,
        }
    }
}

/// What running the templating command amounts to: its standard output
/// where the process was started and exited with success, and a failure
/// in every other case.
pub fn command_result(started: bool, succeeded: bool, stdout: Vec<u8>) -> (r: RenderResult)
    ensures
        r@ == if started && succeeded {
            RenderResultView::Stdout(stdout@)
        } else {
            RenderResultView::Failed
        },
{
    if started && succeeded {
        RenderResult::Stdout(stdout)
    } else {
        RenderResult::Failed
    }
}

/// What reading a repository path amounts to: the contents of its files
/// where the directory and every file in it could be read, and a failure
/// in every other case.
pub fn files_result(contents: Option<Vec<String>>) -> (r: RenderResult)
    ensures
        r@ == match contents {
            Some(files) => RenderResultView::Files(views(files@)),
            None => RenderResultView::Failed,
        },
{
    match contents {
        Some(files) => RenderResult::Files(files),
        None => RenderResult::Failed,
    }
}

/// What rendering the application named `application` gave.
#[derive(Debug, Clone, PartialEq, Eq)]
pub struct RenderOutcome {
    pub application: String,
    pub result: RenderResult,
}

/// The model of a render outcome.
pub struct RenderOutcomeView {
    pub application: Seq<char>,
    pub result: RenderResultView,
}

impl View for RenderOutcome {
    type V = RenderOutcomeView;

    open spec fn view(&self) -> RenderOutcomeView {
        RenderOutcomeView { application: self.application@, result: self.result@ }
    }
}

/// The manifest text that a result amounts to: the files joined; the
/// output decoded and trimmed; `RenderFailure` where rendering failed.
pub open spec fn result_text(result: RenderResultView) -> Result<Seq<char>, Error> {
    match result {
        RenderResultView::Files(texts) => Ok(concatenated(texts)),
        RenderResultView::Stdout(bytes) => Ok(trimmed_text(lossy_text(bytes))),
        RenderResultView::Failed => Err(Error::RenderFailure),
    }
}

/// The manifest text of a result.
pub fn rendered_text(result: &RenderResult) -> (r: Result<String, Error>)
    ensures
        match r {
            Ok(text) => result_text(result@) == Ok::<Seq<char>, Error>(text@),
            Err(e) => result_text(result@) == Err::<Seq<char>, Error>(e),
        },
{
    match result {
        RenderResult::Files(files) => Ok(join_contents(files)),
        RenderResult::Stdout(bytes) => {
            let decoded = from_utf8_lossy(bytes);
            Ok(trim(decoded.as_str()).to_owned())
        },
        RenderResult::Failed => Err(Error::RenderFailure),
    }
}

} // verus!
