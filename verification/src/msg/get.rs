//! Retrieval: looking a message up and encoding the response stream.
//!
//! A response is `uuid=<id>?<body>` for an inline message, or the header
//! `uuid=<id>&<echoed metadata>?` followed by the streamed blob file for a
//! blob message. The blob is streamed in fixed-size chunks by the
//! [`ReturnBody`] state machine; the caller reads the file and the machine
//! decides each step.

use crate::errors::ApiErr;
use crate::file_storage::FileStorage;
use crate::ids::MsgId;
use crate::index::{store_contents, store_get};
use crate::msg::Either;
use crate::msg::sys_wf;
use crate::record_db::RecordDb;
use crate::wire::{amp, qmark};
use vstd::prelude::*;

verus! {

/// How many blob bytes one streamed chunk carries at most: a
/// throughput/latency compromise, not a protocol constant.
pub const RETRIEVAL_CHUNK: u64 = 665600;

/// The bytes `uuid=`.
pub open spec fn lit_uuid_eq() -> Seq<u8> {
    seq![117u8, 117u8, 105u8, 100u8, 61u8]
}

/// The whole response for an inline message: `uuid=<id>?<body>`.
pub open spec fn resp_inline(id: MsgId, msg: Seq<u8>) -> Seq<u8> {
    lit_uuid_eq() + id.text() + seq![qmark()] + msg
}

/// The header of a blob response: `uuid=<id>&<echoed metadata>?`; the blob
/// file's bytes follow it on the stream.
pub open spec fn resp_header(id: MsgId, msg: Seq<u8>) -> Seq<u8> {
    lit_uuid_eq() + id.text() + seq![amp()] + msg + seq![qmark()]
}

/// Builds `uuid=<id>` then `sep`, then `msg`, then for a blob header the
/// closing `?`.
fn build_resp(id: MsgId, msg: &[u8], blob: bool) -> (r: Vec<u8>)
    ensures
        blob ==> r@ == resp_header(id, msg@),
        !blob ==> r@ == resp_inline(id, msg@),
{
    let mut out: Vec<u8> = Vec::new();
    out.push(117);
    out.push(117);
    out.push(105);
    out.push(100);
    out.push(61);
    let id_text = id.to_text();
    out.extend_from_slice(id_text.as_slice());
    if blob {
        out.push(38);
        out.extend_from_slice(msg);
        out.push(63);
        proof {
            assert(out@ =~= resp_header(id, msg@));
        }
    } else {
        out.push(63);
        out.extend_from_slice(msg);
        proof {
            assert(out@ =~= resp_inline(id, msg@));
        }
    }
    out
}

/// What the response stream does next: emit the header, read and emit that
/// many blob bytes, or finish.
pub enum StreamStep {
    Header(Vec<u8>),
    Read(u64),
    Done,
}

/// The blob response stream: the textual header, then the blob file in
/// chunks of at most [`RETRIEVAL_CHUNK`] bytes, counted against the file's
/// size. The sequence is finite and not restartable; a failed file read
/// aborts it with an error item rather than truncating it silently.
pub struct ReturnBody {
    pub header: Vec<u8>,
    pub file_size: u64,
    pub bytes_read: u64,
    pub headers_sent: bool,
    pub msg_sent: bool,
}

impl ReturnBody {
    /// The stream never reads past the file.
    pub open spec fn wf(self) -> bool {
        self.bytes_read <= self.file_size
    }

    /// Blob bytes still to stream.
    pub open spec fn remaining(self) -> int {
        self.file_size - self.bytes_read
    }

    /// A fresh stream for a blob of `file_size` bytes behind `header`.
    pub fn new(header: Vec<u8>, file_size: u64) -> (r: ReturnBody)
        ensures
            r.wf(),
            r == (ReturnBody {
                header,
                file_size,
                bytes_read: 0,
                headers_sent: false,
                msg_sent: false,
            }),
    {
        ReturnBody { header, file_size, bytes_read: 0, headers_sent: false, msg_sent: false }
    }

    /// What to do next: the header first, then reads of up to
    /// [`RETRIEVAL_CHUNK`] bytes while any remain, then the end.
    pub fn next_step(&self) -> (r: StreamStep)
        requires
            self.wf(),
        ensures
            !self.headers_sent ==> (r matches StreamStep::Header(h) && h@ == self.header@),
            self.headers_sent && !self.msg_sent && self.remaining() >= RETRIEVAL_CHUNK ==> r
                == StreamStep::Read(RETRIEVAL_CHUNK),
            self.headers_sent && !self.msg_sent && 0 < self.remaining() < RETRIEVAL_CHUNK ==> r
                == StreamStep::Read(self.remaining() as u64),
            self.headers_sent && (self.msg_sent || self.remaining() == 0) ==> r is Done,
    {
        if !self.headers_sent {
            let mut h: Vec<u8> = Vec::new();
            h.extend_from_slice(self.header.as_slice());
            proof {
                assert(h@ =~= self.header@);
            }
            StreamStep::Header(h)
        } else if self.msg_sent {
            StreamStep::Done
        } else {
            let limit = self.file_size - self.bytes_read;
            if limit >= RETRIEVAL_CHUNK {
                StreamStep::Read(RETRIEVAL_CHUNK)
            } else if limit == 0 {
                StreamStep::Done
            } else {
                StreamStep::Read(limit)
            }
        }
    }

    /// Takes the transition the last [`Self::next_step`] announced: marks
    /// the header sent, or counts the chunk the caller just streamed.
    pub fn advance(&mut self)
        requires
            old(self).wf(),
        ensures
            final(self).wf(),
            final(self).header == old(self).header,
            final(self).file_size == old(self).file_size,
            !old(self).headers_sent ==> *final(self) == (ReturnBody {
                headers_sent: true,
                ..*old(self)
            }),
            old(self).headers_sent && !old(self).msg_sent && old(self).remaining()
                >= RETRIEVAL_CHUNK ==> *final(self) == (ReturnBody {
                bytes_read: (old(self).bytes_read + RETRIEVAL_CHUNK) as u64,
                ..*old(self)
            }),
            old(self).headers_sent && !old(self).msg_sent && 0 < old(self).remaining()
                < RETRIEVAL_CHUNK ==> *final(self) == (ReturnBody {
                bytes_read: old(self).file_size,
                msg_sent: true,
                ..*old(self)
            }),
            old(self).headers_sent && (old(self).msg_sent || old(self).remaining() == 0)
                ==> *final(self) == *old(self),
    {
        if !self.headers_sent {
            self.headers_sent = true;
        } else if self.msg_sent {
        } else {
            let limit = self.file_size - self.bytes_read;
            if limit >= RETRIEVAL_CHUNK {
                self.bytes_read = self.bytes_read + RETRIEVAL_CHUNK;
            } else if limit == 0 {
            } else {
                self.bytes_read = self.file_size;
                self.msg_sent = true;
            }
        }
    }
}


/// The blob bytes the stream will still serve from this state on: chunks of
/// [`RETRIEVAL_CHUNK`] while more remain, then the remainder.
pub open spec fn stream_rest(b: ReturnBody) -> int
    decreases b.remaining(),
    when b.wf()
{
    if b.msg_sent || b.remaining() == 0 {
        0
    } else if b.remaining() >= RETRIEVAL_CHUNK {
        RETRIEVAL_CHUNK + stream_rest(
            ReturnBody { bytes_read: (b.bytes_read + RETRIEVAL_CHUNK) as u64, ..b },
        )
    } else {
        b.remaining()
    }
}

/// The stream serves every remaining blob byte exactly once: from any state,
/// the read sizes it will announce until it finishes sum to what remains of
/// the file. In particular a fresh stream serves the whole file — the
/// byte-size override a blob was submitted with never changes what is
/// served.
pub proof fn lemma_stream_serves_remaining(b: ReturnBody)
    requires
        b.wf(),
        !b.msg_sent,
    ensures
        stream_rest(b) == b.remaining(),
    decreases b.remaining(),
{
    if b.remaining() >= RETRIEVAL_CHUNK {
        let stepped = ReturnBody { bytes_read: (b.bytes_read + RETRIEVAL_CHUNK) as u64, ..b };
        assert(stepped.wf());
        if stepped.remaining() > 0 {
            lemma_stream_serves_remaining(stepped);
        } else {
            assert(stream_rest(stepped) == 0);
        }
        assert(stream_rest(b) == RETRIEVAL_CHUNK + stream_rest(stepped));
    } else {
        assert(stream_rest(b) == b.remaining());
    }
}

/// A blob response: the caller opens the blob file named by `uuid`, builds a
/// [`ReturnBody`] from `header` and the file's size, and streams it.
pub struct RetrievedBlob {
    pub uuid: MsgId,
    pub header: Vec<u8>,
}

/// An inline response: the whole `uuid=<id>?<body>` text.
pub struct RetrievedInline {
    pub uuid: MsgId,
    pub text: Vec<u8>,
}

/// Looks a message up by id, by priority group, or store-wide next-pending
/// (optionally youngest-first), and encodes the response. `None` means no
/// message matches the selector: a normal outcome, not an error.
pub fn handle<D: RecordDb>(
    store: &msg_store::store::Store,
    database: &mut D,
    file_storage: &FileStorage,
    uuid_option: Option<MsgId>,
    priority_option: Option<u32>,
    reverse_option: bool,
) -> (r: Result<Option<Either<RetrievedBlob, RetrievedInline>>, ApiErr>)
    requires
        sys_wf(*store, *old(database), *file_storage),
    ensures
        final(database).view_db() == old(database).view_db(),
        final(database).inv(),
        match r {
            Ok(Some(out)) => ({
                let id = (match out {
                    Either::A(blob) => blob.uuid,
                    Either::B(inline) => inline.uuid,
                });
                let msg = old(database).view_db()[id].0;
                &&& store_contents(*store).contains_key(id)
                &&& (uuid_option is Some ==> id == uuid_option->0)
                &&& (uuid_option is None && priority_option is Some ==> id.priority
                    == priority_option->0 && (forall|o: MsgId|
                    store_contents(*store).contains_key(o) && o.priority == priority_option->0 && o
                        != id ==> if reverse_option {
                        o.delivered_before(id)
                    } else {
                        id.delivered_before(o)
                    }))
                &&& (uuid_option is None && priority_option is None ==> (forall|o: MsgId|
                    store_contents(*store).contains_key(o) && o != id ==> if reverse_option {
                        o.delivered_before(id)
                    } else {
                        id.delivered_before(o)
                    }))
                &&& (match out {
                    Either::A(blob) => file_storage.ids().contains(id) && blob.header@
                        == resp_header(id, msg),
                    Either::B(inline) => !file_storage.ids().contains(id) && inline.text@
                        == resp_inline(id, msg),
                })
            }),
            Ok(None) => {
                &&& (uuid_option is Some ==> !store_contents(*store).contains_key(uuid_option->0))
                &&& (uuid_option is None && priority_option is Some ==> forall|o: MsgId|
                    store_contents(*store).contains_key(o) ==> o.priority != priority_option->0)
                &&& (uuid_option is None && priority_option is None ==> store_contents(*store)
                    =~= Map::empty())
            },
            Err(e) => (e == ApiErr::SyncError && uuid_option is None && priority_option is None)
                || e == ApiErr::DatabaseError,
        },
{
    let found = match store_get(store, uuid_option, priority_option, reverse_option) {
        Ok(found) => found,
        Err(_) => {
            return Err(ApiErr::SyncError);
        },
    };
    let uuid = match found {
        Some(uuid) => uuid,
        None => {
            return Ok(None);
        },
    };
    let record = match database.get(uuid) {
        Ok(Some(record)) => record,
        Ok(None) => {
            proof {
                assert(false);
            }
            return Err(ApiErr::SyncError);
        },
        Err(_) => {
            return Err(ApiErr::DatabaseError);
        },
    };
    if file_storage.contains(uuid) {
        let header = build_resp(uuid, record.payload.as_slice(), true);
        Ok(Some(Either::A(RetrievedBlob { uuid, header })))
    } else {
        let text = build_resp(uuid, record.payload.as_slice(), false);
        Ok(Some(Either::B(RetrievedInline { uuid, text })))
    }
}

} // verus!
