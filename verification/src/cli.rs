//! The command line client: what a command asks the daemon, and what is made
//! of the answer.

use crate::history::{differ_at_most_in, lists, History};
use crate::ipc::{label_text, Item, Request, Response, Status, Summary};
use crate::server::{
    a_change_is_to_the_named_entry_only, a_list_is_answered_as_asked,
    clearing_takes_what_it_is_asked_to, Facts,
};
use crate::store::PREVIEW_CHARS;
use crate::text::{
    count_digits, decimal_of, digit, digits_of, magnitude, preview_is_one_line, push_aligned,
    push_decimal, push_number, push_repeated, repeated, right_aligned, trim, trimmed,
};
use vstd::prelude::*;
use vstd::string::*;

verus! {

#[derive(Debug, Copy, Clone, PartialEq, Eq, Structural)]
pub enum Format {
    /// Aligned, decorated, for reading
    Human,
    /// `id<TAB>preview`, for rofi/dmenu and shell pipelines
    Plain,
    /// One JSON array
    Json,
}

#[derive(Debug)]
pub enum Command {
    /// List history, newest first, pinned entries first
    List { limit: usize, all: bool, pinned: bool, format: Format },
    /// Print an entry's full content; without an id, the most recent entry's
    Get { id: Option<i64> },
    /// Put an entry back on the system clipboard
    Copy { id: Option<i64> },
    /// Pin an entry so it is never evicted
    Pin { id: i64 },
    /// Unpin an entry
    Unpin { id: i64 },
    /// Give an entry a name, which pins it, or take the name away
    Label { id: i64, text: Option<String>, remove: bool },
    /// Delete a single entry
    Rm { id: i64 },
    /// Delete history
    Clear { all: bool, yes: bool },
    /// Show daemon status
    Status,
}

/// How a command begins.
#[derive(Debug)]
pub enum Begin {
    /// Send this to the daemon.
    Ask(Request),
    /// Ask the user first, with this prompt.
    Confirm(String),
    /// It makes no sense; this is why.
    Fail(String),
}

/// What a response that does not fit says.
#[derive(Debug)]
pub enum Complaint {
    /// Something to tell the user.
    Message(String),
    /// A response that makes no sense here.
    Unexpected(Response),
}

/// How a command ends.
#[derive(Debug)]
pub enum End {
    /// Write this to standard output, and nothing behind it.
    Out(String),
    /// Write this line to standard error.
    Note(String),
    /// Write these to standard output as JSON.
    Json(Vec<Summary>),
    /// Put this on the clipboard.
    Copy(Item),
    /// It failed.
    Fail(Complaint),
}

/// The request for an entry, or for the most recent one.
pub open spec fn request_for(id: Option<i64>) -> Request {
    match id {
        Some(id) => Request::Get { id },
        None => Request::Latest,
    }
}

impl Command {
    /// The request that carries this command out, if it makes sense.
    pub open spec fn asks(self, request: Request) -> bool {
        match self {
            Command::List { limit, all, pinned, .. } => request == (Request::List {
                limit: if all {
                    None
                } else {
                    Some(limit)
                },
                pinned_only: pinned,
            }),
            Command::Get { id } => request == request_for(id),
            Command::Copy { id } => request == request_for(id),
            Command::Pin { id } => request == (Request::SetPinned { id, pinned: true }),
            Command::Unpin { id } => request == (Request::SetPinned { id, pinned: false }),
            Command::Label { id, text, remove } => request matches Request::SetLabel {
                id: labelled,
                label,
            } && labelled == id && label_text(label) == (if remove {
                None
            } else {
                label_text(text)
            }),
            Command::Rm { id } => request == (Request::Remove { id }),
            Command::Clear { all, .. } => request == (Request::Clear { keep_pinned: !all }),
            Command::Status => request is Status,
        }
    }

    /// A label is to be given, and there is none.
    pub open spec fn lacks_a_label(self) -> bool {
        self matches Command::Label { text, remove, .. } && text is None && !remove
    }

    /// This deletes history, and the user has not agreed yet.
    pub open spec fn needs_consent(self) -> bool {
        self matches Command::Clear { yes, .. } && !yes
    }
}

/// The question before history is deleted.
pub open spec fn prompt_text(all: bool) -> Seq<char> {
    "Delete "@ + (if all {
        "ALL entries, including pinned"@
    } else {
        "all unpinned entries"@
    }) + "? [y/N] "@
}

fn copy_of(label: &Option<String>) -> (copy: Option<String>)
    ensures
        label_text(copy) == label_text(*label),
{
    match label {
        Some(text) => Some(text.clone()),
        None => None,
    }
}

impl Command {
    /// `begun` is how this command begins.
    pub open spec fn begins(self, begun: Begin) -> bool {
        if self.lacks_a_label() {
            begun matches Begin::Fail(why) && why@
                == "provide a label, or pass --remove to clear it"@
        } else if self.needs_consent() {
            begun matches Begin::Confirm(prompt) && prompt@ == prompt_text(self->Clear_all)
        } else {
            begun matches Begin::Ask(request) && self.asks(request)
        }
    }
}

/// Tells how a command begins.
pub fn begin(command: &Command) -> (begun: Begin)
    ensures
        command.begins(begun),
{
    match command {
        Command::List { limit, all, pinned, .. } => Begin::Ask(
            Request::List {
                limit: if *all {
                    None
                } else {
                    Some(*limit)
                },
                pinned_only: *pinned,
            },
        ),
        Command::Get { id } => Begin::Ask(fetch(*id)),
        Command::Copy { id } => Begin::Ask(fetch(*id)),
        Command::Pin { id } => Begin::Ask(Request::SetPinned { id: *id, pinned: true }),
        Command::Unpin { id } => Begin::Ask(Request::SetPinned { id: *id, pinned: false }),
        Command::Label { id, text, remove } => {
            if text.is_none() && !*remove {
                return Begin::Fail("provide a label, or pass --remove to clear it".to_owned());
            }
            let label = if *remove {
                None
            } else {
                copy_of(text)
            };
            Begin::Ask(Request::SetLabel { id: *id, label })
        },
        Command::Rm { id } => Begin::Ask(Request::Remove { id: *id }),
        Command::Clear { all, yes } => if *yes {
            Begin::Ask(Request::Clear { keep_pinned: !*all })
        } else {
            Begin::Confirm(prompt(*all))
        },
        Command::Status => Begin::Ask(Request::Status),
    }
}

/// `Get`/`Copy` share the "id or most recent" lookup.
pub fn fetch(id: Option<i64>) -> (request: Request)
    ensures
        request == request_for(id),
{
    match id {
        Some(id) => Request::Get { id },
        None => Request::Latest,
    }
}

fn prompt(all: bool) -> (text: String)
    ensures
        text@ == prompt_text(all),
{
    let mut text = "Delete ".to_owned();
    if all {
        text.append("ALL entries, including pinned");
    } else {
        text.append("all unpinned entries");
    }
    text.append("? [y/N] ");
    text
}

/// Whether an answer to the question agrees.
pub fn agrees(answer: &str) -> (agreed: bool)
    ensures
        agreed == (trimmed(answer@) == "y"@ || trimmed(answer@) == "Y"@ || trimmed(answer@)
            == "yes"@),
{
    let answer = trim(answer);
    answer == "y".to_owned() || answer == "Y".to_owned() || answer == "yes".to_owned()
}

/// What a response that does not fit says: the daemon's own error, or that it
/// was not expected.
pub open spec fn is_unexpected(response: Response, complaint: Complaint) -> bool {
    match response {
        Response::Error { message } => complaint == Complaint::Message(message),
        _ => complaint == Complaint::Unexpected(response),
    }
}

/// What to say of a response that does not fit.
pub fn unexpected(response: Response) -> (complaint: Complaint)
    ensures
        is_unexpected(response, complaint),
{
    match response {
        Response::Error { message } => Complaint::Message(message),
        other => Complaint::Unexpected(other),
    }
}

/// What the picker says of a response that does not fit.
pub open spec fn is_described(response: Response, complaint: Complaint) -> bool {
    match response {
        Response::NotFound { id } => complaint matches Complaint::Message(text) && text@
            == "entry "@ + decimal_of(id as int) + " is gone"@,
        _ => is_unexpected(response, complaint),
    }
}

/// What to say of a response that does not fit, in the picker.
pub fn describe(response: Response) -> (complaint: Complaint)
    ensures
        is_described(response, complaint),
{
    match response {
        Response::NotFound { id } => {
            let mut text = "entry ".to_owned();
            push_decimal(&mut text, id);
            text.append(" is gone");
            Complaint::Message(text)
        },
        other => unexpected(other),
    }
}

/// How many characters an id takes. The smallest id of all, which has no
/// positive counterpart, keeps its sign.
pub open spec fn id_width(n: i64) -> nat {
    decimal_of(
        if n < 0 && n != i64::MIN {
            -n
        } else {
            n as int
        },
    ).len()
}

/// The number of characters of an id.
pub fn digits(n: i64) -> (width: usize)
    ensures
        width == id_width(n),
        0 < width <= 21,
{
    let count: usize = count_digits(magnitude(n));
    if n == i64::MIN {
        count + 1
    } else {
        count
    }
}

/// One line for scripts: the id, a tab and the preview.
pub open spec fn plain_line(item: Summary) -> Seq<char> {
    decimal_of(item.id as int) + seq!['\t'] + item.preview@ + seq!['\n']
}

/// One line for each item.
pub open spec fn plain_lines(items: Seq<Summary>) -> Seq<char>
    decreases items.len(),
{
    if items.len() == 0 {
        Seq::empty()
    } else {
        plain_lines(items.drop_last()) + plain_line(items.last())
    }
}

/// The width of the widest id.
pub open spec fn column_width(items: Seq<Summary>) -> nat
    decreases items.len(),
{
    if items.len() == 0 {
        0
    } else {
        let others = column_width(items.drop_last());
        let own = id_width(items.last().id);
        if own > others {
            own
        } else {
            others
        }
    }
}

/// A label in brackets, if there is one.
pub open spec fn label_part(label: Option<String>) -> Seq<char> {
    match label {
        Some(text) => "["@ + text@ + "] "@,
        None => Seq::empty(),
    }
}

/// One line for people: the id, a mark if pinned, the label and the preview.
pub open spec fn human_line(item: Summary, width: int) -> Seq<char> {
    right_aligned(decimal_of(item.id as int), width) + (if item.pinned {
        " * "@
    } else {
        "   "@
    }) + label_part(item.label) + item.preview@ + seq!['\n']
}

/// The line between the pinned section and the rest.
pub open spec fn separator_line(width: int) -> Seq<char> {
    repeated('-', width) + "--+\n"@
}

/// The item at `k` is not pinned, and the one before it is.
pub open spec fn leaves_pinned(items: Seq<Summary>, k: int) -> bool {
    0 < k < items.len() && items[k - 1].pinned && !items[k].pinned
}

/// The lines of the first `n` items. Pinned entries sort first, so the first
/// item that is not pinned behind one that is gets the separator.
pub open spec fn human_lines(items: Seq<Summary>, width: int, n: int) -> Seq<char>
    decreases n,
{
    if n <= 0 {
        Seq::empty()
    } else {
        let k = n - 1;
        let separator = if leaves_pinned(items, k) && forall|j: int|
            0 <= j < k ==> !#[trigger] leaves_pinned(items, j) {
            separator_line(width)
        } else {
            Seq::empty()
        };
        human_lines(items, width, k) + separator + human_line(items[k], width)
    }
}

/// A list for scripts.
pub fn plain_list(items: &Vec<Summary>) -> (text: String)
    ensures
        text@ == plain_lines(items@),
{
    let mut text = String::new();
    let mut n: usize = 0;
    while n < items.len()
        invariant
            n <= items@.len(),
            text@ == plain_lines(items@.take(n as int)),
        decreases items@.len() - n,
    {
        let ghost before = text@;
        push_decimal(&mut text, items[n].id);
        text.push('\t');
        text.append(items[n].preview.as_str());
        text.push('\n');
        proof {
            assert(items@.take(n + 1).drop_last() =~= items@.take(n as int));
            assert(text@ =~= before + plain_line(items@[n as int]));
        }
        n += 1;
    }
    proof {
        assert(items@.take(items@.len() as int) =~= items@);
    }
    text
}

fn widest(items: &Vec<Summary>) -> (width: usize)
    ensures
        width == column_width(items@),
        width <= 21,
{
    let mut width: usize = 0;
    let mut n: usize = 0;
    while n < items.len()
        invariant
            n <= items@.len(),
            width == column_width(items@.take(n as int)),
            width <= 21,
        decreases items@.len() - n,
    {
        let own: usize = digits(items[n].id);
        proof {
            assert(items@.take(n + 1).drop_last() =~= items@.take(n as int));
        }
        if own > width {
            width = own;
        }
        n += 1;
    }
    proof {
        assert(items@.take(items@.len() as int) =~= items@);
    }
    width
}

fn push_human_line(out: &mut String, item: &Summary, width: usize)
    ensures
        final(out)@ == old(out)@ + human_line(*item, width as int),
{
    push_aligned(out, item.id, width);
    if item.pinned {
        out.append(" * ");
    } else {
        out.append("   ");
    }
    match &item.label {
        Some(label) => {
            out.append("[");
            out.append(label.as_str());
            out.append("] ");
        },
        None => {},
    }
    out.append(item.preview.as_str());
    out.push('\n');
    proof {
        assert(out@ =~= old(out)@ + human_line(*item, width as int));
    }
}

fn push_separator(out: &mut String, width: usize)
    ensures
        final(out)@ == old(out)@ + separator_line(width as int),
{
    push_repeated(out, '-', width);
    out.append("--+\n");
    proof {
        assert(out@ =~= old(out)@ + separator_line(width as int));
    }
}

/// A list for people.
pub fn human_list(items: &Vec<Summary>) -> (text: String)
    ensures
        text@ == human_lines(items@, column_width(items@) as int, items@.len() as int),
{
    let width: usize = widest(items);
    let mut text = String::new();
    let mut printed_separator = false;
    let mut n: usize = 0;
    while n < items.len()
        invariant
            n <= items@.len(),
            text@ == human_lines(items@, width as int, n as int),
            printed_separator <==> exists|j: int| 0 <= j < n && #[trigger] leaves_pinned(items@, j),
        decreases items@.len() - n,
    {
        let ghost before = text@;
        if !items[n].pinned && n > 0 && items[n - 1].pinned && !printed_separator {
            push_separator(&mut text, width);
            printed_separator = true;
            proof {
                assert(leaves_pinned(items@, n as int));
            }
        } else {
            proof {
                assert(before + Seq::<char>::empty() =~= before);
            }
        }
        push_human_line(&mut text, &items[n], width);
        n += 1;
    }
    text
}

/// The lines of a status report.
pub open spec fn status_text(s: Status) -> Seq<char> {
    "clipsterd    "@ + s.version@ + " ("@ + s.backend@ + ")\n"@ + "database     "@ + s.db_path@
        + "\n"@ + "entries      "@ + decimal_of(s.total as int) + " ("@ + decimal_of(
        s.pinned as int,
    ) + " pinned)\n"@ + "history_size "@ + digits_of(s.history_size as nat) + "\n"@
        + "captured     "@ + digits_of(s.captured_since_start as nat) + " since daemon start\n"@
}

/// A status report.
pub fn status_report(s: &Status) -> (text: String)
    ensures
        text@ == status_text(*s),
{
    let mut text = "clipsterd    ".to_owned();
    text.append(s.version.as_str());
    text.append(" (");
    text.append(s.backend.as_str());
    text.append(")\n");
    text.append("database     ");
    text.append(s.db_path.as_str());
    text.append("\n");
    text.append("entries      ");
    push_decimal(&mut text, s.total);
    text.append(" (");
    push_decimal(&mut text, s.pinned);
    text.append(" pinned)\n");
    text.append("history_size ");
    push_number(&mut text, s.history_size as u64);
    text.append("\n");
    text.append("captured     ");
    push_number(&mut text, s.captured_since_start);
    text.append(" since daemon start\n");
    text
}

/// That there is no entry with this id.
pub open spec fn missing_text(id: i64) -> Seq<char> {
    "no entry with id "@ + decimal_of(id as int)
}

fn missing(id: i64) -> (text: String)
    ensures
        text@ == missing_text(id),
{
    let mut text = "no entry with id ".to_owned();
    push_decimal(&mut text, id);
    text
}

/// What a lookup brought: the item, or what to complain of.
pub fn fetched(id: Option<i64>, response: Response) -> (item: Result<Item, Complaint>)
    ensures
        match response {
            Response::Item(found) => item == Ok::<Item, Complaint>(found),
            Response::NotFound { .. } => item matches Err(Complaint::Message(text)) && text@ == (
            match id {
                Some(id) => missing_text(id),
                None => "history is empty"@,
            }),
            _ => item matches Err(complaint) && is_unexpected(response, complaint),
        },
{
    match response {
        Response::Item(found) => Ok(found),
        Response::NotFound { .. } => Err(
            Complaint::Message(
                match id {
                    Some(id) => missing(id),
                    None => "history is empty".to_owned(),
                },
            ),
        ),
        other => Err(unexpected(other)),
    }
}

/// What a change came to: a note of what was done, or what to complain of.
pub open spec fn is_affected(verb: Seq<char>, id: i64, response: Response, end: End) -> bool {
    match response {
        Response::Affected(n) => if n == 0 {
            end matches End::Fail(Complaint::Message(text)) && text@ == missing_text(id)
        } else {
            end matches End::Note(text) && text@ == verb + " #"@ + decimal_of(id as int)
        },
        _ => end matches End::Fail(complaint) && is_unexpected(response, complaint),
    }
}

/// Tells what a change of one entry came to.
pub fn affected(verb: &str, id: i64, response: Response) -> (end: End)
    ensures
        is_affected(verb@, id, response, end),
{
    match response {
        Response::Affected(n) => if n == 0 {
            End::Fail(Complaint::Message(missing(id)))
        } else {
            let mut text = verb.to_owned();
            text.append(" #");
            push_decimal(&mut text, id);
            End::Note(text)
        },
        other => End::Fail(unexpected(other)),
    }
}

/// How a list in this format ends the command.
pub open spec fn is_printed(items: Vec<Summary>, format: Format, end: End) -> bool {
    match format {
        Format::Json => end == End::Json(items),
        Format::Plain => end matches End::Out(text) && text@ == plain_lines(items@),
        Format::Human => if items@.len() == 0 {
            end matches End::Note(text) && text@ == "history is empty"@
        } else {
            end matches End::Out(text) && text@ == human_lines(
                items@,
                column_width(items@) as int,
                items@.len() as int,
            )
        },
    }
}

/// Tells how to print a list.
pub fn print_list(items: Vec<Summary>, format: Format) -> (end: End)
    ensures
        is_printed(items, format, end),
{
    match format {
        Format::Json => End::Json(items),
        Format::Plain => End::Out(plain_list(&items)),
        Format::Human => if items.len() == 0 {
            End::Note("history is empty".to_owned())
        } else {
            End::Out(human_list(&items))
        },
    }
}

impl Command {
    /// `end` is how this command ends with that response.
    pub open spec fn ends(self, response: Response, end: End) -> bool {
        match self {
            Command::List { format, .. } => match response {
                Response::Items(items) => is_printed(items, format, end),
                _ => end matches End::Fail(complaint) && is_unexpected(response, complaint),
            },
            Command::Get { id } => match response {
                Response::Item(item) => end == End::Out(item.content),
                _ => fails_to_fetch(id, response, end),
            },
            Command::Copy { id } => match response {
                Response::Item(item) => end == End::Copy(item),
                _ => fails_to_fetch(id, response, end),
            },
            Command::Pin { id } => is_affected("pinned"@, id, response, end),
            Command::Unpin { id } => is_affected("unpinned"@, id, response, end),
            Command::Label { id, .. } => is_affected("labelled"@, id, response, end),
            Command::Rm { id } => is_affected("removed"@, id, response, end),
            Command::Clear { .. } => match response {
                Response::Affected(n) => end matches End::Note(text) && text@ == "cleared "@
                    + digits_of(n as nat) + " entries"@,
                _ => end matches End::Fail(complaint) && is_unexpected(response, complaint),
            },
            Command::Status => match response {
                Response::Status(s) => end matches End::Out(text) && text@ == status_text(s),
                _ => end matches End::Fail(complaint) && is_unexpected(response, complaint),
            },
        }
    }
}

/// `end` says why the response to a lookup brought no item.
pub open spec fn fails_to_fetch(id: Option<i64>, response: Response, end: End) -> bool {
    match response {
        Response::NotFound { .. } => end matches End::Fail(Complaint::Message(text)) && text@ == (
        match id {
            Some(id) => missing_text(id),
            None => "history is empty"@,
        }),
        _ => end matches End::Fail(complaint) && is_unexpected(response, complaint),
    }
}

/// Tells how a command ends with the daemon's response.
pub fn conclude(command: &Command, response: Response) -> (end: End)
    ensures
        command.ends(response, end),
{
    match command {
        Command::List { format, .. } => match response {
            Response::Items(items) => print_list(items, *format),
            other => End::Fail(unexpected(other)),
        },
        Command::Get { id } => match fetched(*id, response) {
            // No trailing newline: the content is the content. Shell
            // substitution and pipes both depend on not inventing one.
            Ok(item) => End::Out(item.content),
            Err(complaint) => End::Fail(complaint),
        },
        Command::Copy { id } => match fetched(*id, response) {
            Ok(item) => End::Copy(item),
            Err(complaint) => End::Fail(complaint),
        },
        Command::Pin { id } => affected("pinned", *id, response),
        Command::Unpin { id } => affected("unpinned", *id, response),
        Command::Label { id, .. } => affected("labelled", *id, response),
        Command::Rm { id } => affected("removed", *id, response),
        Command::Clear { .. } => match response {
            Response::Affected(n) => {
                let mut text = "cleared ".to_owned();
                push_number(&mut text, n as u64);
                text.append(" entries");
                End::Note(text)
            },
            other => End::Fail(unexpected(other)),
        },
        Command::Status => match response {
            Response::Status(s) => End::Out(status_report(&s)),
            other => End::Fail(unexpected(other)),
        },
    }
}

/// The note that an entry was put on the clipboard.
pub fn copied(id: i64, tool: &str) -> (text: String)
    ensures
        text@ == "copied #"@ + decimal_of(id as int) + " via "@ + tool@,
{
    let mut text = "copied #".to_owned();
    push_decimal(&mut text, id);
    text.append(" via ");
    text.append(tool);
    text
}

/// How many lines some text has.
pub open spec fn line_count(text: Seq<char>) -> nat
    decreases text.len(),
{
    if text.len() == 0 {
        0
    } else {
        line_count(text.drop_last()) + (if text.last() == '\n' {
            1nat
        } else {
            0
        })
    }
}

proof fn lemma_line_count_adds_up(a: Seq<char>, b: Seq<char>)
    ensures
        line_count(a + b) == line_count(a) + line_count(b),
    decreases b.len(),
{
    if b.len() == 0 {
        assert(a + b =~= a);
    } else {
        assert((a + b).drop_last() =~= a + b.drop_last());
        lemma_line_count_adds_up(a, b.drop_last());
    }
}

proof fn lemma_one_line(text: Seq<char>)
    requires
        forall|i: int| 0 <= i < text.len() ==> #[trigger] text[i] != '\n',
    ensures
        line_count(text) == 0,
    decreases text.len(),
{
    if text.len() > 0 {
        assert(text[text.len() - 1] != '\n');
        assert forall|i: int| 0 <= i < text.drop_last().len() implies #[trigger] text.drop_last()[i]
            != '\n' by {
            assert(text[i] != '\n');
        }
        lemma_one_line(text.drop_last());
    }
}

proof fn lemma_digits_have_no_line_break(n: nat)
    ensures
        forall|i: int| 0 <= i < digits_of(n).len() ==> #[trigger] digits_of(n)[i] != '\n',
    decreases n,
{
    assert(digit((n % 10) as int) != '\n');
    if n >= 10 {
        lemma_digits_have_no_line_break(n / 10);
        assert forall|i: int| 0 <= i < digits_of(n).len() implies #[trigger] digits_of(n)[i]
            != '\n' by {
            if i < digits_of(n / 10).len() {
                assert(digits_of(n)[i] == digits_of(n / 10)[i]);
            }
        }
    } else {
        assert(digits_of(n) =~= seq![digit((n % 10) as int)]);
    }
}

/// A list for scripts has exactly one line for each entry, as long as previews
/// are one line each.
pub proof fn a_plain_list_has_one_line_per_entry(items: Seq<Summary>)
    requires
        forall|i: int, k: int|
            0 <= i < items.len() && 0 <= k < items[i].preview@.len()
                ==> #[trigger] items[i].preview@[k] != '\n',
    ensures
        line_count(plain_lines(items)) == items.len(),
    decreases items.len(),
{
    if items.len() > 0 {
        let fewer = items.drop_last();
        assert forall|i: int, k: int|
            0 <= i < fewer.len() && 0 <= k
                < fewer[i].preview@.len() implies #[trigger] fewer[i].preview@[k] != '\n' by {
            assert(items[i].preview@[k] != '\n');
        }
        a_plain_list_has_one_line_per_entry(fewer);
        let item = items.last();
        assert(item == items[items.len() - 1]);
        let number = decimal_of(item.id as int);
        if item.id < 0 {
            lemma_digits_have_no_line_break((-item.id) as nat);
        } else {
            lemma_digits_have_no_line_break(item.id as nat);
        }
        let front = number + seq!['\t'] + item.preview@;
        assert forall|i: int| 0 <= i < front.len() implies #[trigger] front[i] != '\n' by {
            if i > number.len() {
                assert(front[i] == item.preview@[i - number.len() - 1]);
            }
        }
        lemma_one_line(front);
        assert(plain_line(item) == front + seq!['\n']);
        assert(line_count(seq!['\n']) == 1) by {
            assert(line_count(seq!['\n'].drop_last()) == 0);
        }
        lemma_line_count_adds_up(front, seq!['\n']);
        lemma_line_count_adds_up(plain_lines(fewer), plain_line(item));
    }
}

/// A list for scripts of what a sound history lists has one line for each
/// entry, whatever the entries hold.
pub proof fn a_history_is_listed_line_by_line(
    history: History,
    limit: Option<usize>,
    pinned_only: bool,
    items: Seq<Summary>,
)
    requires
        history.sound(),
        lists(items, history.entries, limit, pinned_only),
    ensures
        line_count(plain_lines(items)) == items.len(),
{
    assert forall|i: int, k: int|
        0 <= i < items.len() && 0 <= k
            < items[i].preview@.len() implies #[trigger] items[i].preview@[k] != '\n' by {
        let id = items[i].id;
        assert(items[i].shows(history.entries));
        assert(history.entries.contains_key(id));
        preview_is_one_line(history.entries[id].content, PREVIEW_CHARS as nat);
    }
    a_plain_list_has_one_line_per_entry(items);
}

/// History is cleared only by a command to clear it, and only with the user's
/// consent; what is pinned goes only if that was asked for.
pub proof fn clearing_needs_consent(command: Command, keep_pinned: bool)
    requires
        command.begins(Begin::Ask(Request::Clear { keep_pinned })),
    ensures
        command == (Command::Clear { all: !keep_pinned, yes: true }),
{
}

/// From the command to its end: `get` writes and `copy` hands on the whole
/// content of the entry that was named, or of an entry that none is more recent
/// than if none was named, and nothing else; they fail if there is no such
/// entry, and only then.
pub proof fn a_lookup_ends_with_the_entry_asked_for(
    command: Command,
    id: Option<i64>,
    request: Request,
    history: History,
    facts: Facts,
    response: Response,
    end: End,
)
    requires
        command == (Command::Get { id }) || command == (Command::Copy { id }),
        command.begins(Begin::Ask(request)),
        request.is_answered(history, facts, response),
        command.ends(response, end),
    ensures
        request.effect(history) == history,
        end is Fail <==> match id {
            Some(n) => !history.entries.contains_key(n),
            None => forall|any: i64| !#[trigger] history.entries.contains_key(any),
        },
        end !is Fail ==> exists|n: i64|
            {
                &&& #[trigger] history.entries.contains_key(n)
                &&& id matches Some(asked) ==> n == asked
                &&& id is None ==> forall|other: i64| #[trigger]
                    history.entries.contains_key(other) ==> history.entries[other].seq
                        <= history.entries[n].seq
                &&& command is Get ==> (end matches End::Out(text) && text@
                    == history.entries[n].content)
                &&& command is Copy ==> (end matches End::Copy(item) && item.id == n
                    && item.content@ == history.entries[n].content)
            },
{
    if let Response::Item(item) = response {
        assert(history.entries.contains_key(item.id));
        if id is None {
            assert forall|other: i64| #[trigger]
                history.entries.contains_key(other) implies history.entries[other].seq
                <= history.entries[item.id].seq by {}
        }
    } else if id is None {
        assert forall|any: i64| !#[trigger] history.entries.contains_key(any) by {}
    }
}

/// From the command to its end: a command that changes an entry changes the one
/// that it names as it says, and no other. It notes that it did, or, if there is
/// no such entry, fails and changes nothing.
pub proof fn a_change_ends_with_the_named_entry_changed(
    command: Command,
    id: i64,
    request: Request,
    history: History,
    facts: Facts,
    response: Response,
    end: End,
)
    requires
        match command {
            Command::Pin { id: named } => named == id,
            Command::Unpin { id: named } => named == id,
            Command::Rm { id: named } => named == id,
            Command::Label { id: named, .. } => named == id,
            _ => false,
        },
        command.begins(Begin::Ask(request)),
        request.is_answered(history, facts, response),
        command.ends(response, end),
    ensures
        differ_at_most_in(request.effect(history), history, id),
        history.entries.contains_key(id) <==> end is Note,
        !history.entries.contains_key(id) <==> end is Fail,
        !history.entries.contains_key(id) ==> !request.effect(history).entries.contains_key(id),
        history.entries.contains_key(id) ==> {
            let (after, was) = (request.effect(history).entries, history.entries[id]);
            &&& command is Rm <==> !after.contains_key(id)
            &&& command !is Rm ==> after[id].content == was.content && after[id].preview
                == was.preview && after[id].seq == was.seq && after[id].created_at
                == was.created_at && after[id].updated_at == was.updated_at
            &&& command is Pin ==> after[id].pinned != 0 && after[id].label == was.label
            &&& command is Unpin ==> after[id].pinned == 0 && after[id].label == was.label
            &&& command matches Command::Label { text, remove, .. } ==> {
                &&& remove ==> after[id].label is None && after[id].pinned == was.pinned
                &&& !remove ==> (text matches Some(t) && after[id].label == Some(t@)
                    && after[id].pinned != 0)
            }
        },
{
    a_change_is_to_the_named_entry_only(request, id, history, facts, response);
}

/// From the command to its end: `list` gives the entries that were asked for,
/// pinned ones only where those were asked for, as many as asked for or all of
/// them, and `list` for scripts one line for each.
pub proof fn a_list_ends_with_what_was_asked_for(
    limit: usize,
    all: bool,
    pinned: bool,
    format: Format,
    request: Request,
    history: History,
    facts: Facts,
    response: Response,
    end: End,
)
    requires
        history.sound(),
        limit <= i64::MAX,
        (Command::List { limit, all, pinned, format }).begins(Begin::Ask(request)),
        request.is_answered(history, facts, response),
        (Command::List { limit, all, pinned, format }).ends(response, end),
    ensures
        end !is Fail,
        ({
            let table = history.entries;
            let there = table.dom().filter(|id: i64| pinned ==> table[id].pinned == 1).len();
            let shown = if all || there <= limit {
                there
            } else {
                limit as nat
            };
            &&& format is Json ==> (end matches End::Json(items) && items@.len() == shown
                && forall|i: int|
                0 <= i < items@.len() ==> {
                    let row = #[trigger] items@[i];
                    &&& table.contains_key(row.id)
                    &&& row.preview@ == table[row.id].preview
                    &&& row.pinned <==> table[row.id].pinned == 1
                    &&& pinned ==> row.pinned
                })
            &&& format is Plain ==> (end matches End::Out(text) && line_count(text@) == shown)
            &&& format is Human && shown > 0 ==> end is Out
            &&& format is Human && shown == 0 ==> end is Note
        }),
{
    let limited = if all {
        None
    } else {
        Some(limit)
    };
    a_list_is_answered_as_asked(history, limited, pinned, facts, response);
    if let Response::Items(items) = response {
        a_history_is_listed_line_by_line(history, limited, pinned, items@);
    }
}

/// From the command to its end: `clear` with consent leaves what is pinned as it
/// was, or nothing with `--all`.
pub proof fn clearing_ends_with_what_was_asked_for(
    all: bool,
    request: Request,
    history: History,
    facts: Facts,
    response: Response,
    end: End,
)
    requires
        history.entries.dom().finite(),
        (Command::Clear { all, yes: true }).begins(Begin::Ask(request)),
        request.is_answered(history, facts, response),
        (Command::Clear { all, yes: true }).ends(response, end),
    ensures
        end is Note,
        forall|id: i64| #[trigger]
            request.effect(history).entries.contains_key(id) <==> !all
                && history.entries.contains_key(id) && history.entries[id].pinned != 0,
        forall|id: i64| #[trigger]
            request.effect(history).entries.contains_key(id) ==> request.effect(history).entries[id]
                == history.entries[id],
{
    clearing_takes_what_it_is_asked_to(history, !all, facts, response);
}

/// A command asks the user before it clears and never otherwise, and fails at
/// once only where a label is to be given and there is none.
pub proof fn a_command_begins_with_a_request(command: Command, begun: Begin)
    requires
        command.begins(begun),
    ensures
        begun is Confirm <==> (command matches Command::Clear { yes, .. } && !yes),
        begun is Fail <==> (command matches Command::Label { text, remove, .. } && text is None
            && !remove),
{
}

/// The number that decimal digits stand for.
pub open spec fn value_of(digits: Seq<char>) -> int
    decreases digits.len(),
{
    if digits.len() == 0 {
        0
    } else {
        10 * value_of(digits.drop_last()) + (digits.last() as u32 - '0' as u32)
    }
}

/// Decimal digits read back as the number that they were made of.
pub proof fn digits_read_back(n: nat)
    ensures
        value_of(digits_of(n)) == n,
        digits_of(n).len() > 0,
        n < 10 <==> digits_of(n).len() == 1,
        n > 0 ==> digits_of(n)[0] != '0',
        digits_of(n)[0] != '-',
    decreases n,
{
    if n < 10 {
        assert(digits_of(n).drop_last() =~= Seq::empty());
        assert(value_of(digits_of(n).drop_last()) == 0);
    } else {
        digits_read_back(n / 10);
        assert(digits_of(n).drop_last() =~= digits_of(n / 10));
        assert(digits_of(n)[0] == digits_of(n / 10)[0]);
    }
}

/// A number in decimal reads back as that number: a sign for a negative one,
/// then digits without a leading zero. So two ids never look alike.
pub proof fn a_decimal_reads_back(n: int)
    ensures
        n < 0 ==> decimal_of(n)[0] == '-' && value_of(decimal_of(n).drop_first()) == -n,
        n >= 0 ==> decimal_of(n)[0] != '-' && value_of(decimal_of(n)) == n,
        n > 0 ==> decimal_of(n)[0] != '0',
{
    if n < 0 {
        digits_read_back((-n) as nat);
        assert(decimal_of(n).drop_first() =~= digits_of((-n) as nat));
    } else {
        digits_read_back(n as nat);
    }
}

/// In a list for people the ids line up: the id column of every line is equally
/// wide, and the id stands at its right end.
pub proof fn ids_line_up(items: Seq<Summary>, i: int)
    requires
        0 <= i < items.len(),
        items[i].id >= 0,
    ensures
        ({
            let width = column_width(items) as int;
            let line = human_line(items[i], width);
            let number = decimal_of(items[i].id as int);
            &&& number.len() <= width < line.len()
            &&& line.subrange(width - number.len(), width) == number
            &&& forall|k: int| 0 <= k < width - number.len() ==> #[trigger] line[k] == ' '
            &&& line.last() == '\n'
        }),
    decreases items.len(),
{
    lemma_no_id_is_wider(items, i);
    let width = column_width(items) as int;
    let line = human_line(items[i], width);
    let number = decimal_of(items[i].id as int);
    assert(line.subrange(width - number.len(), width) =~= number);
}

proof fn lemma_no_id_is_wider(items: Seq<Summary>, i: int)
    requires
        0 <= i < items.len(),
    ensures
        id_width(items[i].id) <= column_width(items),
    decreases items.len(),
{
    if i < items.len() - 1 {
        lemma_no_id_is_wider(items.drop_last(), i);
    }
}

/// A line for people ends with the preview, behind the label in brackets if
/// there is one, and marks an entry with a star exactly if it is pinned.
pub proof fn a_line_shows_mark_label_and_preview(item: Summary, width: int)
    requires
        width >= decimal_of(item.id as int).len(),
    ensures
        ({
            let line = human_line(item, width);
            let tail = item.preview@ + seq!['\n'];
            &&& line.len() >= width + 3
            &&& line[width] == ' ' && line[width + 2] == ' '
            &&& line[width + 1] == '*' <==> item.pinned
            &&& line.subrange(line.len() - tail.len(), line.len() as int) == tail
            &&& match item.label {
                Some(label) => line.subrange(width + 3, line.len() - tail.len()) == seq!['[']
                    + label@ + seq![']', ' '],
                None => line.len() == width + 3 + tail.len(),
            }
        }),
{
    reveal_strlit(" * ");
    reveal_strlit("   ");
    reveal_strlit("[");
    reveal_strlit("] ");
    let line = human_line(item, width);
    let tail = item.preview@ + seq!['\n'];
    assert(right_aligned(decimal_of(item.id as int), width).len() == width);
    assert(line.subrange(line.len() - tail.len(), line.len() as int) =~= tail);
    if let Some(label) = item.label {
        assert(line.subrange(width + 3, line.len() - tail.len()) =~= seq!['['] + label@ + seq![
            ']',
            ' ',
        ]);
    }
}

/// The lines of some entries for people, one behind the other.
pub open spec fn lines_of(items: Seq<Summary>, width: int) -> Seq<char>
    decreases items.len(),
{
    if items.len() == 0 {
        Seq::empty()
    } else {
        lines_of(items.drop_last(), width) + human_line(items.last(), width)
    }
}

proof fn lemma_lines_up_to(items: Seq<Summary>, width: int, split: int, n: int)
    requires
        0 <= split <= items.len(),
        0 <= n <= items.len(),
        forall|i: int| 0 <= i < items.len() ==> ((#[trigger] items[i]).pinned <==> i < split),
    ensures
        human_lines(items, width, n) == (if n <= split {
            lines_of(items.take(n), width)
        } else {
            lines_of(items.take(split), width) + (if split > 0 {
                separator_line(width)
            } else {
                Seq::empty()
            }) + lines_of(items.subrange(split, n), width)
        }),
    decreases n,
{
    if n > 0 {
        let k = n - 1;
        lemma_lines_up_to(items, width, split, k);
        assert(forall|j: int| 0 <= j < k && j != split ==> !#[trigger] leaves_pinned(items, j));
        let line = human_line(items[k], width);
        if n <= split {
            assert(items.take(n).drop_last() =~= items.take(k));
            assert(!leaves_pinned(items, k));
            assert(lines_of(items.take(k), width) + Seq::<char>::empty() + line =~= lines_of(
                items.take(k),
                width,
            ) + line);
        } else {
            let above = lines_of(items.take(split), width);
            let between = if split > 0 {
                separator_line(width)
            } else {
                Seq::empty()
            };
            let below = items.subrange(split, n);
            assert(below.drop_last() =~= items.subrange(split, k));
            assert(below.last() == items[k]);
            if k == split {
                assert(items.subrange(split, k) =~= Seq::<Summary>::empty());
                assert(leaves_pinned(items, k) <==> split > 0);
                assert(above + between + line =~= above + between + (Seq::<char>::empty() + line));
            } else {
                assert(!leaves_pinned(items, k));
                let rest = lines_of(items.subrange(split, k), width);
                assert(above + between + rest + Seq::<char>::empty() + line =~= above + between + (
                rest + line));
            }
        }
    } else {
        assert(items.take(0) =~= Seq::<Summary>::empty());
    }
}

/// A list for people shows every entry on a line of its own, in the order of the
/// list; a line of dashes sets the pinned ones apart exactly if there are both
/// pinned and other ones.
pub proof fn pinned_entries_are_set_apart(items: &Vec<Summary>, split: int, text: String)
    requires
        0 <= split <= items@.len(),
        forall|i: int| 0 <= i < items@.len() ==> ((#[trigger] items@[i]).pinned <==> i < split),
        call_ensures(human_list, (items,), text),
    ensures
        ({
            let width = column_width(items@) as int;
            let above = lines_of(items@.take(split), width);
            let below = lines_of(items@.skip(split), width);
            if 0 < split < items@.len() {
                text@ == above + Seq::new((width + 2) as nat, |i: int| '-') + seq!['+', '\n'] + below
            } else {
                text@ == above + below
            }
        }),
{
    let width = column_width(items@) as int;
    let count = items@.len() as int;
    let above = lines_of(items@.take(split), width);
    let below = lines_of(items@.skip(split), width);
    lemma_lines_up_to(items@, width, split, count);
    assert(items@.subrange(split, count) =~= items@.skip(split));
    if 0 < split < count {
        reveal_strlit("--+\n");
        let dashes = Seq::new((width + 2) as nat, |i: int| '-');
        assert(separator_line(width) =~= dashes + seq!['+', '\n']);
        assert(above + separator_line(width) + below =~= above + dashes + seq!['+', '\n'] + below);
    } else if split == 0 {
        assert(above + Seq::<char>::empty() + below =~= above + below);
    } else {
        assert(items@.skip(split) =~= Seq::<Summary>::empty());
        assert(above + below =~= above);
    }
}

} // verus!
