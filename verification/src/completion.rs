//! The completion request and response records exchanged between the
//! session's line editor and the completion provider.

use vstd::prelude::*;
use crate::session::MAX_LINE_BYTES;

verus! {

pub const MAX_COMPLETION_CANDIDATES: usize = 8;
pub const MAX_COMPLETION_ITEM_BYTES: usize = 32;

#[derive(Clone, Copy, Debug, PartialEq, Eq, Structural)]
pub enum CompletionStatus {
    Found,
    NoMatch,
    Unavailable,
    Malformed,
}

/// A request for completions of `line` with the cursor at `cursor`.
#[derive(Clone, Copy, Debug)]
pub struct CompletionRequest {
    pub request_id: u16,
    pub line_revision: u8,
    pub cursor: u16,
    pub line_len: u16,
    pub line: [u8; MAX_LINE_BYTES],
}

impl CompletionRequest {
    /// The line the request carries.
    pub open spec fn line_view(self) -> Seq<u8> {
        self.line@.take(self.line_len as int)
    }

    /// A request for `line` at `cursor`; `None` when the line is longer
    /// than a line buffer or the cursor lies past its end.
    pub fn new(request_id: u16, line: &[u8], cursor: usize) -> (r: Option<CompletionRequest>)
        ensures
            match r {
                Some(request) => line@.len() <= MAX_LINE_BYTES && cursor <= line@.len()
                    && request.request_id == request_id && request.line_revision == 0
                    && request.cursor == cursor && request.line_len == line@.len()
                    && request.line_view() == line@,
                None => line@.len() > MAX_LINE_BYTES || cursor > line@.len(),
            },
    {
        if line.len() > MAX_LINE_BYTES || cursor > line.len() {
            return None;
        }
        let mut buffer = [0u8; MAX_LINE_BYTES];
        let mut i: usize = 0;
        while i < line.len()
            invariant
                line@.len() <= MAX_LINE_BYTES,
                i <= line@.len(),
                buffer@.len() == MAX_LINE_BYTES,
                forall|j: int| 0 <= j < i ==> buffer@[j] == line@[j],
            decreases line@.len() - i,
        {
            buffer.set(i, line[i]);
            i += 1;
        }
        let request = CompletionRequest {
            request_id,
            line_revision: 0,
            cursor: cursor as u16,
            line_len: line.len() as u16,
            line: buffer,
        };
        assert(request.line_view() =~= line@);
        Some(request)
    }

    /// The line the request carries, when its length is in bounds.
    pub fn line(&self) -> (r: Option<Vec<u8>>)
        ensures
            match r {
                Some(v) => self.line_len <= MAX_LINE_BYTES && v@ == self.line_view(),
                None => self.line_len > MAX_LINE_BYTES,
            },
    {
        if self.line_len as usize > MAX_LINE_BYTES {
            return None;
        }
        let length = self.line_len as usize;
        let mut out: Vec<u8> = Vec::new();
        let mut i: usize = 0;
        while i < length
            invariant
                length <= MAX_LINE_BYTES,
                length == self.line_len,
                i <= length,
                out@ == self.line@.take(i as int),
            decreases length - i,
        {
            out.push(self.line[i]);
            i += 1;
            assert(out@ =~= self.line@.take(i as int));
        }
        Some(out)
    }
}

/// The provider's answer: candidates that replace `replace_start` to
/// `replace_end` of the line, each with the cursor position it leaves.
#[derive(Clone, Copy, Debug)]
pub struct CompletionResponse {
    pub request_id: u16,
    pub line_revision: u8,
    pub status: CompletionStatus,
    pub replace_start: u16,
    pub replace_end: u16,
    pub candidate_count: u8,
    pub lengths: [u8; MAX_COMPLETION_CANDIDATES],
    pub cursor_offsets: [u8; MAX_COMPLETION_CANDIDATES],
    pub candidates: [[u8; MAX_COMPLETION_ITEM_BYTES]; MAX_COMPLETION_CANDIDATES],
}

/// A response answers `request` when it names the request and its line
/// revision, its range lies on the requested line, and its candidates
/// are within bounds.
pub open spec fn response_valid_for(response: CompletionResponse, request: CompletionRequest) -> bool {
    &&& response.request_id == request.request_id
    &&& response.line_revision == request.line_revision
    &&& response.replace_start <= response.replace_end
    &&& response.replace_end <= request.line_len
    &&& response.candidate_count <= MAX_COMPLETION_CANDIDATES
    &&& forall|i: int|
        0 <= i < response.candidate_count ==> #[trigger] response.lengths@[i]
            <= MAX_COMPLETION_ITEM_BYTES && response.cursor_offsets@[i] <= response.lengths@[i]
}

impl CompletionResponse {
    /// A response with no candidates.
    pub fn empty(request_id: u16, status: CompletionStatus) -> (r: CompletionResponse)
        ensures
            r.request_id == request_id,
            r.status == status,
            r.line_revision == 0,
            r.replace_start == 0,
            r.replace_end == 0,
            r.candidate_count == 0,
    {
        CompletionResponse {
            request_id,
            line_revision: 0,
            status,
            replace_start: 0,
            replace_end: 0,
            candidate_count: 0,
            lengths: [0u8; MAX_COMPLETION_CANDIDATES],
            cursor_offsets: [0u8; MAX_COMPLETION_CANDIDATES],
            candidates: [[0u8; MAX_COMPLETION_ITEM_BYTES]; MAX_COMPLETION_CANDIDATES],
        }
    }

    /// Add a candidate that leaves the cursor at its end.
    pub fn push_candidate(&mut self, candidate: &[u8]) -> (r: bool)
        ensures
            r == (old(self).candidate_count < MAX_COMPLETION_CANDIDATES && candidate@.len()
                <= MAX_COMPLETION_ITEM_BYTES),
            r ==> final(self).candidate_count == old(self).candidate_count + 1,
            !r ==> *final(self) == *old(self),
    {
        let length = candidate.len();
        if length > MAX_COMPLETION_ITEM_BYTES {
            return false;
        }
        self.push_candidate_with_cursor(candidate, length as u8)
    }

    /// Add a candidate that leaves the cursor `cursor` bytes into it.
    pub fn push_candidate_with_cursor(&mut self, candidate: &[u8], cursor: u8) -> (r: bool)
        ensures
            r == (old(self).candidate_count < MAX_COMPLETION_CANDIDATES && candidate@.len()
                <= MAX_COMPLETION_ITEM_BYTES && cursor <= candidate@.len()),
            r ==> {
                let i = old(self).candidate_count as int;
                &&& final(self).candidate_count == old(self).candidate_count + 1
                &&& final(self).lengths@ == old(self).lengths@.update(i, candidate@.len() as u8)
                &&& final(self).cursor_offsets@ == old(self).cursor_offsets@.update(i, cursor)
                &&& final(self).candidates@[i]@.take(candidate@.len() as int) == candidate@
                &&& forall|j: int| 0 <= j < MAX_COMPLETION_CANDIDATES && j != i ==> final(self).candidates@[j]
                    == old(self).candidates@[j]
                &&& final(self).request_id == old(self).request_id
                &&& final(self).line_revision == old(self).line_revision
                &&& final(self).status == old(self).status
                &&& final(self).replace_start == old(self).replace_start
                &&& final(self).replace_end == old(self).replace_end
            },
            !r ==> *final(self) == *old(self),
    {
        let count = self.candidate_count as usize;
        if count >= MAX_COMPLETION_CANDIDATES || candidate.len() > MAX_COMPLETION_ITEM_BYTES
            || cursor as usize > candidate.len() {
            return false;
        }
        let mut item = [0u8; MAX_COMPLETION_ITEM_BYTES];
        let mut i: usize = 0;
        while i < candidate.len()
            invariant
                candidate@.len() <= MAX_COMPLETION_ITEM_BYTES,
                i <= candidate@.len(),
                item@.len() == MAX_COMPLETION_ITEM_BYTES,
                forall|j: int| 0 <= j < i ==> item@[j] == candidate@[j],
            decreases candidate@.len() - i,
        {
            item.set(i, candidate[i]);
            i += 1;
        }
        assert(item@.take(candidate@.len() as int) =~= candidate@);
        self.candidates.set(count, item);
        self.lengths.set(count, candidate.len() as u8);
        self.cursor_offsets.set(count, cursor);
        self.candidate_count = self.candidate_count + 1;
        true
    }

    pub fn is_valid_for(&self, request: &CompletionRequest) -> (r: bool)
        ensures
            r == response_valid_for(*self, *request),
    {
        if self.request_id != request.request_id || self.line_revision != request.line_revision
            || self.replace_start > self.replace_end || self.replace_end > request.line_len
            || self.candidate_count as usize > MAX_COMPLETION_CANDIDATES {
            return false;
        }
        let count = self.candidate_count as usize;
        let mut i: usize = 0;
        while i < count
            invariant
                count == self.candidate_count,
                count <= MAX_COMPLETION_CANDIDATES,
                i <= count,
                forall|j: int|
                    0 <= j < i ==> #[trigger] self.lengths@[j] <= MAX_COMPLETION_ITEM_BYTES
                        && self.cursor_offsets@[j] <= self.lengths@[j],
            decreases count - i,
        {
            if self.lengths[i] as usize > MAX_COMPLETION_ITEM_BYTES || self.cursor_offsets[i] > self.lengths[i] {
                return false;
            }
            i += 1;
        }
        true
    }
}

} // verus!
