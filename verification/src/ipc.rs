//! Wire protocol between `clipster` and `clipsterd`.
//!
//! Newline-delimited JSON over a Unix domain socket: one request line, one
//! response line, connection closed. Serialized JSON never contains a raw
//! newline, so the framing is unambiguous even for multi-line clipboard
//! content.

use vstd::prelude::*;

verus! {

#[derive(Debug, Clone)]
pub enum Request {
    /// Newest first. `limit` of `None` means "everything".
    List { limit: Option<usize>, pinned_only: bool },
    Get { id: i64 },
    /// Most recent entry; the id-less path used by scripts.
    Latest,
    SetPinned { id: i64, pinned: bool },
    SetLabel { id: i64, label: Option<String> },
    Remove { id: i64 },
    Clear { keep_pinned: bool },
    Status,
}

#[derive(Debug, Clone)]
pub enum Response {
    Items(Vec<Summary>),
    Item(Item),
    /// Number of rows affected, for mutating commands.
    Affected(usize),
    Status(Status),
    NotFound { id: i64 },
    Error { message: String },
}

/// A history entry without its content, for list views.
#[derive(Debug, Clone)]
pub struct Summary {
    pub id: i64,
    pub preview: String,
    pub pinned: bool,
    pub label: Option<String>,
    pub bytes: usize,
    pub created_at: i64,
    pub updated_at: i64,
}

/// A history entry with its full content.
#[derive(Debug, Clone)]
pub struct Item {
    pub id: i64,
    pub content: String,
    pub pinned: bool,
    pub label: Option<String>,
    pub created_at: i64,
    pub updated_at: i64,
}

#[derive(Debug, Clone)]
pub struct Status {
    pub version: String,
    pub backend: String,
    pub total: i64,
    pub pinned: i64,
    pub history_size: usize,
    pub captured_since_start: u64,
    pub db_path: String,
}

/// The text of a label, if there is one.
pub open spec fn label_text(label: Option<String>) -> Option<Seq<char>> {
    match label {
        Some(text) => Some(text@),
        None => None,
    }
}

/// The bytes of a line before its end.
pub open spec fn payload_of(line: Seq<u8>) -> Seq<u8>
    decreases line.len(),
{
    if line.len() == 0 || line[0] == 0x0a {
        Seq::empty()
    } else {
        seq![line[0]] + payload_of(line.drop_first())
    }
}

/// A serialized request or response as the line that carries it.
pub fn frame(payload: Vec<u8>) -> (line: Vec<u8>)
    ensures
        line@ == payload@.push(0x0a),
{
    let mut line = payload;
    line.push(0x0a);
    line
}

/// What a line carries: the bytes before the first line end.
pub fn unframe(line: &Vec<u8>) -> (payload: Vec<u8>)
    ensures
        payload@ == payload_of(line@),
{
    let mut payload: Vec<u8> = Vec::new();
    let mut i: usize = 0;
    proof {
        assert(line@.skip(0) =~= line@);
        assert(payload@ + payload_of(line@) =~= payload_of(line@));
    }
    while i < line.len() && line[i] != 0x0a
        invariant
            i <= line@.len(),
            payload@ + payload_of(line@.skip(i as int)) == payload_of(line@),
        decreases line@.len() - i,
    {
        proof {
            let rest = line@.skip(i as int);
            assert(rest.drop_first() =~= line@.skip(i + 1));
            assert(payload@.push(line@[i as int]) + payload_of(line@.skip(i + 1)) =~= payload@
                + payload_of(rest));
        }
        payload.push(line[i]);
        i += 1;
    }
    proof {
        assert(payload_of(line@.skip(i as int)) =~= Seq::empty());
        assert(payload@ + Seq::<u8>::empty() =~= payload@);
    }
    payload
}

/// Framing is unambiguous: what was framed is what is read, whatever follows
/// on the wire, as long as it holds no raw line end itself.
pub proof fn a_framed_payload_reads_back(payload: Seq<u8>, rest: Seq<u8>)
    requires
        !payload.contains(0x0a),
    ensures
        payload_of(payload.push(0x0a) + rest) == payload,
    decreases payload.len(),
{
    let line = payload.push(0x0a) + rest;
    if payload.len() > 0 {
        assert(payload.contains(payload[0]));
        assert(line[0] == payload[0]);
        assert forall|b: u8| payload.drop_first().contains(b) implies payload.contains(b) by {
            let i = choose|i: int|
                0 <= i < payload.drop_first().len() && payload.drop_first()[i] == b;
            assert(payload[i + 1] == b);
        }
        a_framed_payload_reads_back(payload.drop_first(), rest);
        assert(line.drop_first() =~= payload.drop_first().push(0x0a) + rest);
        assert(seq![payload[0]] + payload.drop_first() =~= payload);
    } else {
        assert(line[0] == 0x0a);
        assert(payload =~= Seq::empty());
    }
}

} // verus!
