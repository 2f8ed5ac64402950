//! Byte-range delivery planning for audio streaming.
//!
//! Given the size of the file on disk and the request's optional `Range`
//! header, the planner decides between a full-content response (status 200)
//! and a partial-content response (status 206) and fixes every
//! client-visible field: status, `Content-Length`, and `Content-Range`.
//! A malformed or unsatisfiable range degrades to full content — never to a
//! client error.  Opening, seeking, and streaming the file itself is I/O
//! and is left to the caller.

use vstd::prelude::*;
use vstd::string::StringSliceAdditionalSpecFns;

use crate::digits::{dec_str, digits_val, u64_to_string};
use crate::range::{range_parses, spec_range_end, start_digits, RangeHeader};

verus! {

/// How a request for a media file is answered.
pub enum StreamPlan {
    /// The file does not exist on disk: status 404, no body.
    NotFound,
    /// The whole file: status 200, `Content-Length` is the file size.
    Full { file_size: u64 },
    /// The byte range `[start, end]` of a file of `file_size` bytes:
    /// status 206.
    Partial { start: u64, end: u64, file_size: u64 },
}

/// The inclusive end offset a parsed range asks for: the given end, or the
/// last byte of the file when the end is absent.  As an `int`, so that a
/// zero-byte file yields an unsatisfiable `-1`.
pub open spec fn effective_end(h: RangeHeader, file_size: u64) -> int {
    match h.end {
        Some(e) => e as int,
        None => file_size - 1,
    }
}

/// Whether the parsed range can be honored against a file of `file_size`
/// bytes: it must be non-reversed and lie entirely within the file.
pub open spec fn satisfiable(h: RangeHeader, file_size: u64) -> bool {
    h.start <= effective_end(h, file_size) < file_size
}

/// The plan for an existing file, as a function of the file size and the
/// raw header bytes.
pub open spec fn spec_plan(file_size: u64, header: Option<Seq<u8>>) -> StreamPlan {
    match header {
        None => StreamPlan::Full { file_size },
        Some(s) => {
            if !range_parses(s) {
                StreamPlan::Full { file_size }
            } else {
                let h = RangeHeader {
                    start: digits_val(start_digits(s)) as u64,
                    end: spec_range_end(s),
                };
                if satisfiable(h, file_size) {
                    StreamPlan::Partial {
                        start: h.start,
                        end: effective_end(h, file_size) as u64,
                        file_size,
                    }
                } else {
                    StreamPlan::Full { file_size }
                }
            }
        },
    }
}

impl StreamPlan {
    /// Internal consistency of a partial plan.
    pub open spec fn wf(self) -> bool {
        match self {
            StreamPlan::Partial { start, end, file_size } => start <= end < file_size,
            _ => true,
        }
    }

    /// The HTTP status code of the response.
    pub fn status_code(&self) -> (code: u16)
        ensures
            code == match *self {
                StreamPlan::NotFound => 404u16,
                StreamPlan::Full { .. } => 200u16,
                StreamPlan::Partial { .. } => 206u16,
            },
    {
        match self {
            StreamPlan::NotFound => 404,
            StreamPlan::Full { .. } => 200,
            StreamPlan::Partial { .. } => 206,
        }
    }

    /// The `Content-Length` of the response body.
    pub fn content_length(&self) -> (len: u64)
        requires
            self.wf(),
        ensures
            len == match *self {
                StreamPlan::NotFound => 0u64,
                StreamPlan::Full { file_size } => file_size,
                StreamPlan::Partial { start, end, .. } => (end - start + 1) as u64,
            },
    {
        match self {
            StreamPlan::NotFound => 0,
            StreamPlan::Full { file_size } => *file_size,
            StreamPlan::Partial { start, end, .. } => *end - *start + 1,
        }
    }

    /// The `Content-Range` header value, `bytes <start>-<end>/<size>`,
    /// present exactly on partial responses.
    pub fn content_range(&self) -> (r: Option<String>)
        ensures
            match self {
                StreamPlan::Partial { start, end, file_size } => {
                    &&& r is Some
                    &&& r->0@ == "bytes "@ + dec_str(*start as nat) + "-"@ + dec_str(
                        *end as nat,
                    ) + "/"@ + dec_str(*file_size as nat)
                },
                _ => r is None,
            },
    {
        match self {
            StreamPlan::Partial { start, end, file_size } => {
                let mut s = String::from_str("bytes ");
                let sv = u64_to_string(*start);
                s.append(sv.as_str());
                s.append("-");
                let ev = u64_to_string(*end);
                s.append(ev.as_str());
                s.append("/");
                let fv = u64_to_string(*file_size);
                s.append(fv.as_str());
                Some(s)
            },
            _ => None,
        }
    }
}

/// Plans the response for a file of `file_size` bytes and an optional
/// `Range` header.  A header that is absent, malformed, or unsatisfiable
/// yields a full-content plan; a well-formed satisfiable single range
/// yields the matching partial-content plan.
pub fn plan_stream(file_size: u64, header: Option<&str>) -> (r: StreamPlan)
    ensures
        r == spec_plan(
            file_size,
            match header {
                Some(h) => Some(h.spec_bytes()),
                None => None,
            },
        ),
        r.wf(),
        !(r is NotFound),
        // A malformed header never produces an error: the response is the
        // full file.
        header matches Some(h) && !range_parses(h.spec_bytes()) ==> r == (StreamPlan::Full {
            file_size,
        }),
{
    match header {
        None => StreamPlan::Full { file_size },
        Some(h) => {
            match RangeHeader::parse(h) {
                None => StreamPlan::Full { file_size },
                Some(range) => {
                    let end = match range.end {
                        Some(e) => e,
                        None => {
                            if file_size == 0 {
                                return StreamPlan::Full { file_size };
                            }
                            file_size - 1
                        },
                    };
                    if range.start <= end && end < file_size {
                        StreamPlan::Partial { start: range.start, end, file_size }
                    } else {
                        StreamPlan::Full { file_size }
                    }
                },
            }
        },
    }
}

/// Plans the response for a media request: `NotFound` when the path did not
/// resolve to a file on disk, otherwise per [`plan_stream`].
pub fn plan_send(exists: bool, file_size: u64, header: Option<&str>) -> (r: StreamPlan)
    ensures
        !exists ==> r == StreamPlan::NotFound,
        exists ==> r == spec_plan(
            file_size,
            match header {
                Some(h) => Some(h.spec_bytes()),
                None => None,
            },
        ),
        r.wf(),
{
    if !exists {
        StreamPlan::NotFound
    } else {
        plan_stream(file_size, header)
    }
}

/// A well-formed bounded range within the file is honored exactly: the
/// plan is partial content for `[a, b]`, whose length is `b - a + 1`.
pub proof fn lemma_valid_range_partial(s: Seq<u8>, file_size: u64, a: u64, b: u64)
    requires
        range_parses(s),
        a == digits_val(start_digits(s)),
        spec_range_end(s) == Some(b),
        a <= b < file_size,
    ensures
        spec_plan(file_size, Some(s)) == (StreamPlan::Partial { start: a, end: b, file_size }),
        ({
            let plan = spec_plan(file_size, Some(s));
            plan matches StreamPlan::Partial { start, end, .. } && end - start + 1 == b - a + 1
        }),
{
}

/// A well-formed open-ended range (`b` omitted) within the file covers
/// `[a, file_size - 1]`.
pub proof fn lemma_open_range_to_end(s: Seq<u8>, file_size: u64, a: u64)
    requires
        range_parses(s),
        a == digits_val(start_digits(s)),
        spec_range_end(s) is None,
        a < file_size,
    ensures
        spec_plan(file_size, Some(s)) == (StreamPlan::Partial {
            start: a,
            end: (file_size - 1) as u64,
            file_size,
        }),
{
}

/// A header that does not parse — wrong shape, multiple ranges, or an
/// oversized start — never yields an error: the plan is the full file with
/// status 200.
pub proof fn lemma_malformed_range_full_content(s: Seq<u8>, file_size: u64)
    requires
        !range_parses(s),
    ensures
        spec_plan(file_size, Some(s)) == (StreamPlan::Full { file_size }),
{
}

/// Reversed bounds (`end` before `start`) are unsatisfiable and degrade
/// to full content, never to a client error.
pub proof fn lemma_reversed_range_full_content(s: Seq<u8>, file_size: u64, a: u64, b: u64)
    requires
        range_parses(s),
        a == digits_val(start_digits(s)),
        spec_range_end(s) == Some(b),
        b < a,
    ensures
        spec_plan(file_size, Some(s)) == (StreamPlan::Full { file_size }),
{
}

} // verus!
