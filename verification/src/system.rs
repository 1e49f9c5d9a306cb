//! What is made of the answers of other programs: file pickers and the clipboard. And where
//! overlays are stored.

use vstd::prelude::*;

use crate::search;
use crate::search::readable_text;
use crate::text;
use crate::text::{chars_of, trimmed};

verus! {

broadcast use crate::text::group_views;

/// What a program printed, without white space around it.
pub open spec fn printed(output: Seq<u8>) -> Seq<char> {
    text::trim(search::readable(output))
}

/// What a program printed, if it printed anything but white space.
pub fn nonempty_output(output: &[u8]) -> (value: Option<String>)
    ensures
        match value {
            Some(value) => value@ == printed(output@) && value@.len() > 0,
            None => printed(output@).len() == 0,
        },
{
    let value = trimmed(&readable_text(output));
    if value.as_str().is_empty() {
        None
    } else {
        Some(value)
    }
}

/// What came of a file picker that ended: the path that was picked, nothing where the user picked
/// none, or what went wrong.
pub open spec fn picked(
    success: bool,
    output: Seq<u8>,
    errors: Seq<u8>,
) -> Result<Option<Seq<char>>, Seq<char>> {
    if success {
        Ok(
            if printed(output).len() == 0 {
                None
            } else {
                Some(printed(output))
            },
        )
    } else if printed(errors).len() == 0 {
        Ok(None)
    } else {
        Err("File picker failed: "@ + printed(errors))
    }
}

/// What came of a file picker that ended.
pub fn picker_outcome(success: bool, output: &[u8], errors: &[u8]) -> (outcome: Result<
    Option<String>,
    String,
>)
    ensures
        match outcome {
            Ok(Some(path)) => picked(success, output@, errors@) == Ok::<
                Option<Seq<char>>,
                Seq<char>,
            >(Some(path@)),
            Ok(None) => picked(success, output@, errors@) == Ok::<Option<Seq<char>>, Seq<char>>(
                None,
            ),
            Err(error) => picked(success, output@, errors@) == Err::<Option<Seq<char>>, Seq<char>>(
                error@,
            ),
        },
{
    if success {
        return Ok(nonempty_output(output));
    }
    match nonempty_output(errors) {
        Some(error) => {
            let mut message = "File picker failed: ".to_owned();
            message.append(&error);
            Err(message)
        },
        None => Ok(None),
    }
}

/// Whether a text stands somewhere in another.
pub open spec fn occurs(part: Seq<char>, whole: Seq<char>) -> bool {
    exists|at: int|
        0 <= at <= whole.len() - part.len() && #[trigger] whole.subrange(at, at + part.len())
            == part
}

/// Whether another file picker is worth a try after one failed: this one was not found.
pub fn picker_is_missing(problem: &str) -> (missing: bool)
    ensures
        missing == occurs("not found"@, problem@),
{
    let part = chars_of("not found");
    let whole = chars_of(problem);
    if part.len() > whole.len() {
        return false;
    }
    let last: usize = whole.len() - part.len();
    let mut at: usize = 0;
    loop
        invariant
            part@ == "not found"@,
            whole@ == problem@,
            last == whole.len() - part.len(),
            at <= last,
            forall|k: int|
                0 <= k < at ==> #[trigger] whole@.subrange(k, k + part@.len()) != part@,
        decreases last - at,
    {
        let mut i: usize = 0;
        while i < part.len() && whole[at + i] == part[i]
            invariant
                i <= part.len(),
                at + part.len() <= whole.len(),
                forall|k: int| 0 <= k < i ==> whole@[at + k] == #[trigger] part@[k],
            decreases part.len() - i,
        {
            i = i + 1;
        }
        if i == part.len() {
            assert(whole@.subrange(at as int, at + part@.len()) =~= part@);
            return true;
        }
        assert(whole@.subrange(at as int, at + part@.len())[i as int] != part@[i as int]);
        if at == last {
            return false;
        }
        at = at + 1;
    }
}

/// How a program that reads the clipboard ended.
#[derive(Debug)]
pub enum ClipboardReply {
    /// It printed the contents.
    Content(Vec<u8>),
    /// It failed, and printed these errors.
    Failed(Vec<u8>),
    /// It could not be started.
    Missing(String),
}

/// The contents of a [`ClipboardReply`].
pub enum ReplyView {
    Content(Seq<u8>),
    Failed(Seq<u8>),
    Missing(Seq<char>),
}

impl View for ClipboardReply {
    type V = ReplyView;

    open spec fn view(&self) -> ReplyView {
        match self {
            ClipboardReply::Content(bytes) => ReplyView::Content(bytes@),
            ClipboardReply::Failed(errors) => ReplyView::Failed(errors@),
            ClipboardReply::Missing(error) => ReplyView::Missing(error@),
        }
    }
}

/// What one program made of reading the clipboard.
pub open spec fn reply_of(program: Seq<char>, reply: ReplyView) -> Result<Seq<char>, Seq<char>> {
    match reply {
        ReplyView::Content(bytes) => Ok(search::readable(bytes)),
        ReplyView::Failed(errors) => Err(
            program + ": "@ + if printed(errors).len() == 0 {
                "did not complete successfully"@
            } else {
                printed(errors)
            },
        ),
        ReplyView::Missing(error) => Err(program + ": could not start ("@ + error + ")"@),
    }
}

/// What one program made of reading the clipboard: the contents, or a message.
pub fn clipboard_reply(program: &str, reply: &ClipboardReply) -> (outcome: Result<String, String>)
    ensures
        match outcome {
            Ok(content) => reply_of(program@, reply@) == Ok::<Seq<char>, Seq<char>>(content@),
            Err(error) => reply_of(program@, reply@) == Err::<Seq<char>, Seq<char>>(error@),
        },
{
    match reply {
        ClipboardReply::Content(bytes) => Ok(readable_text(bytes)),
        ClipboardReply::Failed(errors) => {
            let mut message = program.to_owned();
            message.append(": ");
            match nonempty_output(errors) {
                Some(error) => message.append(&error),
                None => message.append("did not complete successfully"),
            }
            Err(message)
        },
        ClipboardReply::Missing(error) => {
            let mut message = program.to_owned();
            message.append(": could not start (");
            message.append(error);
            message.append(")");
            Err(message)
        },
    }
}

/// Messages one after the other, set apart by a semicolon.
pub open spec fn listed(messages: Seq<Seq<char>>) -> Seq<char>
    decreases messages.len(),
{
    if messages.len() == 0 {
        Seq::empty()
    } else if messages.len() == 1 {
        messages[0]
    } else {
        listed(messages.drop_last()) + "; "@ + messages.last()
    }
}

/// Messages one after the other, set apart by a semicolon.
fn list_messages(messages: &Vec<String>) -> (out: String)
    ensures
        out@ == listed(text::views(messages@)),
{
    let ghost all = text::views(messages@);
    let mut out = String::new();
    assert(out@ =~= Seq::<char>::empty());
    let mut i: usize = 0;
    while i < messages.len()
        invariant
            i <= messages.len(),
            all == text::views(messages@),
            out@ == listed(all.take(i as int)),
        decreases messages.len() - i,
    {
        assert(all.take(i + 1).drop_last() =~= all.take(i as int));
        assert(all.take(i + 1).last() == messages@[i as int]@);
        if i > 0 {
            out.append("; ");
        } else {
            assert(out@ + messages@[0]@ =~= messages@[0]@);
        }
        out.append(&messages[i]);
        i = i + 1;
    }
    assert(all.take(i as int) =~= all);
    out
}

/// The message for a clipboard that no program could read.
pub fn clipboard_problem(messages: &Vec<String>) -> (message: String)
    ensures
        message@ == if messages@.len() == 0 {
            "no clipboard command available"@
        } else {
            listed(text::views(messages@))
        },
{
    if messages.len() == 0 {
        "no clipboard command available".to_owned()
    } else {
        list_messages(messages)
    }
}

/// The message for a clipboard that neither a program nor the terminal could write.
pub fn copy_problem(messages: &Vec<String>, error: &str) -> (message: String)
    ensures
        message@ == if listed(text::views(messages@)).len() == 0 {
            error@
        } else {
            listed(text::views(messages@)) + "; terminal clipboard fallback failed: "@ + error@
        },
{
    let mut message = list_messages(messages);
    if message.as_str().is_empty() {
        return error.to_owned();
    }
    message.append("; terminal clipboard fallback failed: ");
    message.append(error);
    message
}

/// A kind of operating system, as far as it decides where data is kept.
#[derive(Clone, Copy, Debug, PartialEq, Eq, Structural)]
pub enum Platform {
    Windows,
    MacOs,
    Unix,
}

/// The directory in which overlays are stored, as the names that lead to it one after the other.
/// Each of the directories that the environment tells of may be missing.
pub open spec fn overlay_place(
    platform: Platform,
    application_data: Option<Seq<char>>,
    data_home: Option<Seq<char>>,
    home: Option<Seq<char>>,
) -> Seq<Seq<char>> {
    if platform == Platform::Windows && application_data is Some {
        seq![application_data->Some_0, "rexedit"@, "overlays"@]
    } else if platform == Platform::MacOs && home is Some {
        seq![
            home->Some_0,
            "Library"@,
            "Application Support"@,
            "rexedit"@,
            "overlays"@,
        ]
    } else if data_home is Some {
        seq![data_home->Some_0, "rexedit"@, "overlays"@]
    } else {
        seq![
            match home {
                Some(directory) => directory,
                None => "."@,
            },
            ".local"@,
            "share"@,
            "rexedit"@,
            "overlays"@,
        ]
    }
}

/// A text that may be missing.
pub open spec fn optional(text: Option<String>) -> Option<Seq<char>> {
    match text {
        Some(text) => Some(text@),
        None => None,
    }
}

/// The directory in which overlays are stored, as the names that lead to it one after the other.
pub fn overlay_storage_dir(
    platform: Platform,
    application_data: Option<String>,
    data_home: Option<String>,
    home: Option<String>,
) -> (names: Vec<String>)
    ensures
        text::views(names@) == overlay_place(
            platform,
            optional(application_data),
            optional(data_home),
            optional(home),
        ),
{
    let ghost place = overlay_place(
        platform,
        optional(application_data),
        optional(data_home),
        optional(home),
    );
    let mut names: Vec<String> = Vec::new();
    if platform == Platform::Windows && application_data.is_some() {
        match application_data {
            Some(directory) => names.push(directory),
            None => {},
        }
    } else if platform == Platform::MacOs && home.is_some() {
        match home {
            Some(directory) => names.push(directory),
            None => {},
        }
        names.push("Library".to_owned());
        names.push("Application Support".to_owned());
    } else {
        match data_home {
            Some(directory) => names.push(directory),
            None => {
                match home {
                    Some(directory) => names.push(directory),
                    None => names.push(".".to_owned()),
                }
                names.push(".local".to_owned());
                names.push("share".to_owned());
            },
        }
    }
    names.push("rexedit".to_owned());
    names.push("overlays".to_owned());
    assert(text::views(names@) =~= place);
    names
}

/// Overlays are stored in a directory of their own below the one that the system keeps data in: that of
/// the environment where it tells of one, and one below the home directory otherwise.
pub proof fn overlays_have_a_directory_of_their_own(
    platform: Platform,
    application_data: Option<Seq<char>>,
    data_home: Option<Seq<char>>,
    home: Option<Seq<char>>,
)
    ensures
        ({
            let names = overlay_place(platform, application_data, data_home, home);
            let n = names.len() as int;
            &&& n >= 3
            &&& names[n - 1] == "overlays"@
            &&& names[n - 2] == "rexedit"@
            &&& platform == Platform::Windows && application_data is Some ==> n == 3 && names[0]
                == application_data->Some_0
            &&& platform == Platform::MacOs && home is Some ==> n == 5 && names[0] == home->Some_0
                && names[1] == "Library"@ && names[2] == "Application Support"@
            &&& (platform == Platform::Unix || (platform == Platform::Windows && application_data is None)
                || (platform == Platform::MacOs && home is None)) ==> {
                &&& data_home is Some ==> n == 3 && names[0] == data_home->Some_0
                &&& data_home is None ==> n == 5 && names[1] == ".local"@ && names[2] == "share"@
                &&& data_home is None && home is Some ==> names[0] == home->Some_0
                &&& data_home is None && home is None ==> names[0] == "."@
            }
        }),
{
}

/// A file picker that succeeds names the file that it printed, or none where it printed nothing; one
/// that fails without a word picked none, and otherwise says what went wrong.
pub proof fn pickers_are_taken_at_their_word(success: bool, output: Seq<u8>, errors: Seq<u8>)
    ensures
        ({
            let outcome = picked(success, output, errors);
            &&& success ==> outcome is Ok
            &&& success && outcome->Ok_0 is Some ==> outcome->Ok_0->Some_0 == printed(output)
                && printed(output).len() > 0
            &&& success && outcome->Ok_0 is None ==> printed(output).len() == 0
            &&& !success && printed(errors).len() == 0 ==> outcome == Ok::<
                Option<Seq<char>>,
                Seq<char>,
            >(None)
            &&& !success && printed(errors).len() > 0 ==> outcome == Err::<
                Option<Seq<char>>,
                Seq<char>,
            >("File picker failed: "@ + printed(errors))
        }),
{
}

} // verus!
