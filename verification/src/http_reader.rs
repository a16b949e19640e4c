//! A remote file that is read as a stream, in chunks that are fetched by HTTP range requests.

use crate::text::{decimal, decimal_string, joined, parse_u64, parsed_u64};
use std::sync::Arc;
use vstd::prelude::*;

verus! {

/// The number of bytes in a chunk: one mebibyte.
pub const CHUNK_SIZE: u64 = 1_048_576;

/// Where a reader is to move to.
#[derive(Debug, Clone, Copy, PartialEq, Eq, Structural)]
pub enum SeekTarget {
    /// A number of bytes from the start of the file.
    Start(u64),
    /// A number of bytes from the end of the file.
    End(i64),
    /// A number of bytes from the current position.
    Current(i64),
}

/// The answer to a seek before the start of the file or beyond its end.
#[derive(Debug, Clone, Copy, PartialEq, Eq, Structural)]
pub struct InvalidSeek;

/// What a `HEAD` request came to: it could not be signed or sent, with the reason, or was answered,
/// with the text of the `content-length` header if it has one.
#[derive(Debug)]
pub enum HeadOutcome {
    NotSigned(String),
    Failed(String),
    Answered(Option<String>),
}

/// A position in a remote file of known length.
#[derive(Debug)]
pub struct HttpRangeReader {
    pub url: String,
    pub content_length: u64,
    pub position: u64,
    pub aws_profile: Option<String>,
}

/// The signed number that has the bit pattern of `n`.
pub open spec fn as_signed(n: u64) -> int {
    if n <= i64::MAX {
        n as int
    } else {
        n - 0x1_0000_0000_0000_0000
    }
}

/// The position that a seek aims at.
pub open spec fn seek_position(target: SeekTarget, content_length: u64, position: u64) -> int {
    match target {
        SeekTarget::Start(offset) => as_signed(offset),
        SeekTarget::End(offset) => as_signed(content_length) + offset,
        SeekTarget::Current(offset) => as_signed(position) + offset,
    }
}

/// Whether a seek may go to `position`.
pub open spec fn seekable(position: int, content_length: u64) -> bool {
    0 <= position <= as_signed(content_length)
}

/// How many bytes a read hands out of a chunk of `len` bytes, from `offset` on, into `room` bytes.
pub open spec fn delivered(len: nat, offset: nat, room: nat) -> nat {
    if len <= offset {
        0
    } else if room <= len - offset {
        room
    } else {
        (len - offset) as nat
    }
}

fn to_signed(n: u64) -> (s: i64)
    ensures
        s == as_signed(n),
{
    let s: i64 = #[verifier::truncate] (n as i64);
    assert(n <= 0x7FFF_FFFF_FFFF_FFFF ==> s == n) by (bit_vector)
        requires
            s == n as i64,
    ;
    assert(n > 0x7FFF_FFFF_FFFF_FFFF ==> s == n - 0x1_0000_0000_0000_0000) by (bit_vector)
        requires
            s == n as i64,
    ;
    s
}

impl HttpRangeReader {
    /// Makes a reader at the start of a file from what a `HEAD` request came to.
    pub fn new(url: &str, head: HeadOutcome, aws_profile: Option<String>) -> (result: Result<
        HttpRangeReader,
        String,
    >)
        ensures
            match (result, head) {
                (Ok(reader), HeadOutcome::Answered(text)) => {
                    &&& content_length_of(text) == Some(reader.content_length)
                    &&& reader.url@ == url@
                    &&& reader.position == 0
                    &&& reader.aws_profile == aws_profile
                },
                (Err(message), HeadOutcome::Answered(text)) => {
                    &&& content_length_of(text) is None
                    &&& message@ == "Missing or invalid content-length header"@
                },
                (Err(message), HeadOutcome::NotSigned(e)) => message@ == e@,
                (Err(message), HeadOutcome::Failed(e)) => message@ == "HEAD request failed: "@ + e@,
                (Ok(_), _) => false,
            },
    {
        let text = match head {
            HeadOutcome::NotSigned(e) => return Err(e),
            HeadOutcome::Failed(e) => return Err(joined("HEAD request failed: ", e.as_str())),
            HeadOutcome::Answered(text) => text,
        };
        match parse_content_length(&text) {
            Some(content_length) => Ok(
                HttpRangeReader::new_with_details(url, content_length, aws_profile),
            ),
            None => Err("Missing or invalid content-length header".to_owned()),
        }
    }

    /// Creates a reader with a known content length, avoiding a HEAD request.
    pub fn new_with_details(
        url: &str,
        content_length: u64,
        aws_profile: Option<String>,
    ) -> (reader: HttpRangeReader)
        ensures
            reader.url@ == url@,
            reader.content_length == content_length,
            reader.position == 0,
            reader.aws_profile == aws_profile,
    {
        HttpRangeReader { url: url.to_owned(), content_length, position: 0, aws_profile }
    }

    /// Returns the content length of the remote file.
    pub fn content_length(&self) -> (length: u64)
        ensures
            length == self.content_length,
    {
        self.content_length
    }

    /// Copies bytes from the current position on into `buf` and moves behind them. `fetch` hands
    /// out the chunk with a given index. A read ends at the end of the chunk at the latest.
    pub fn read<F>(&mut self, buf: &mut [u8], fetch: F) -> (result: Result<usize, String>) where
        F: FnOnce(u64) -> Result<Arc<Vec<u8>>, String>,

        requires
            old(self).position < old(self).content_length ==> {
                &&& call_requires(fetch, (old(self).position / CHUNK_SIZE,))
                &&& forall|chunk: Arc<Vec<u8>>| #[trigger]
                    call_ensures(fetch, (old(self).position / CHUNK_SIZE,), Ok(chunk))
                        ==> old(self).position + delivered(
                        chunk@.len(),
                        (old(self).position % CHUNK_SIZE) as nat,
                        old(buf)@.len(),
                    ) <= u64::MAX
            },
        ensures
            final(self).url == old(self).url,
            final(self).content_length == old(self).content_length,
            final(self).aws_profile == old(self).aws_profile,
            final(buf)@.len() == old(buf)@.len(),
            old(self).position >= old(self).content_length ==> {
                &&& result == Ok::<usize, String>(0)
                &&& final(self).position == old(self).position
                &&& final(buf)@ == old(buf)@
            },
            old(self).position < old(self).content_length ==> exists|
                fetched: Result<Arc<Vec<u8>>, String>,
            |
                #![trigger call_ensures(fetch, (old(self).position / CHUNK_SIZE,), fetched)]
                {
                    &&& call_ensures(fetch, (old(self).position / CHUNK_SIZE,), fetched)
                    &&& match fetched {
                        Err(e) => {
                            &&& result == Err::<usize, String>(e)
                            &&& final(self).position == old(self).position
                            &&& final(buf)@ == old(buf)@
                        },
                        Ok(chunk) => {
                            let offset = (old(self).position % CHUNK_SIZE) as nat;
                            let n = delivered(chunk@.len(), offset, old(buf)@.len());
                            &&& result == Ok::<usize, String>(n as usize)
                            &&& n <= usize::MAX
                            &&& final(self).position == old(self).position + n
                            &&& forall|i: int|
                                0 <= i < n ==> #[trigger] final(buf)@[i] == chunk@[offset + i]
                            &&& forall|i: int|
                                n <= i < old(buf)@.len() ==> #[trigger] final(buf)@[i] == old(
                                    buf,
                                )@[i]
                        },
                    }
                },
    {
        if self.position >= self.content_length {
            return Ok(0);
        }
        let chunk_index: u64 = self.position / CHUNK_SIZE;
        let offset: usize = (self.position % CHUNK_SIZE) as usize;
        let ghost before = buf@;
        let chunk = match fetch(chunk_index) {
            Ok(chunk) => chunk,
            Err(e) => return Err(e),
        };
        let len: usize = chunk.len();
        let available: usize = len.saturating_sub(offset);
        let room: usize = buf.len();
        let n: usize = if room <= available { room } else { available };
        let mut i: usize = 0;
        while i < n
            invariant
                i <= n <= room,
                n <= available,
                len == chunk@.len(),
                available > 0 ==> offset + available == len,
                room == buf@.len() == before.len(),
                forall|j: int| 0 <= j < i ==> #[trigger] buf@[j] == chunk@[offset + j],
                forall|j: int| i <= j < room ==> #[trigger] buf@[j] == before[j],
            decreases n - i,
        {
            buf[i] = chunk[offset + i];
            i = i + 1;
        }
        self.position = self.position + n as u64;
        Ok(n)
    }

    /// Lays out the fetches that put the given chunks into the cache, to be run concurrently.
    pub fn cache_chunks_concurrently(&self, chunk_indices: &[u64]) -> (fetches: Vec<ChunkFetch>)
        requires
            chunk_indices@.len() > 0 ==> self.content_length > 0,
            forall|i: int|
                0 <= i < chunk_indices@.len() ==> fetchable(#[trigger] chunk_indices@[i]),
        ensures
            fetches@.len() == chunk_indices@.len(),
            forall|i: int|
                0 <= i < chunk_indices@.len() ==> (#[trigger] fetches@[i]).is_for(
                    chunk_indices@[i],
                    self.content_length,
                ),
    {
        let mut fetches: Vec<ChunkFetch> = Vec::new();
        let mut i: usize = 0;
        while i < chunk_indices.len()
            invariant
                i <= chunk_indices@.len(),
                fetches@.len() == i,
                chunk_indices@.len() > 0 ==> self.content_length > 0,
                forall|j: int|
                    0 <= j < chunk_indices@.len() ==> fetchable(#[trigger] chunk_indices@[j]),
                forall|j: int|
                    0 <= j < i ==> (#[trigger] fetches@[j]).is_for(
                        chunk_indices@[j],
                        self.content_length,
                    ),
            decreases chunk_indices@.len() - i,
        {
            fetches.push(ChunkFetch::new(chunk_indices[i], self.content_length));
            i = i + 1;
        }
        fetches
    }

    /// Tells whether the position that a seek aims at is a signed 64-bit number.
    pub fn can_seek(&self, target: SeekTarget) -> (fits: bool)
        ensures
            fits == (i64::MIN <= seek_position(target, self.content_length, self.position)
                <= i64::MAX),
    {
        let aim: i128 = match target {
            SeekTarget::Start(offset) => to_signed(offset) as i128,
            SeekTarget::End(offset) => to_signed(self.content_length) as i128 + offset as i128,
            SeekTarget::Current(offset) => to_signed(self.position) as i128 + offset as i128,
        };
        i64::MIN as i128 <= aim && aim <= i64::MAX as i128
    }

    /// Moves to another position, which is at most the length of the file.
    pub fn seek(&mut self, target: SeekTarget) -> (result: Result<u64, InvalidSeek>)
        requires
            i64::MIN <= seek_position(target, old(self).content_length, old(self).position)
                <= i64::MAX,
        ensures
            final(self).url == old(self).url,
            final(self).content_length == old(self).content_length,
            final(self).aws_profile == old(self).aws_profile,
            ({
                let aim = seek_position(target, old(self).content_length, old(self).position);
                if seekable(aim, old(self).content_length) {
                    result == Ok::<u64, InvalidSeek>(aim as u64) && final(self).position == aim
                } else {
                    result is Err && final(self).position == old(self).position
                }
            }),
    {
        let end: i64 = to_signed(self.content_length);
        let aim: i64 = match target {
            SeekTarget::Start(offset) => to_signed(offset),
            SeekTarget::End(offset) => end + offset,
            SeekTarget::Current(offset) => to_signed(self.position) + offset,
        };
        if aim < 0 || aim > end {
            return Err(InvalidSeek);
        }
        self.position = aim as u64;
        Ok(self.position)
    }
}

/// The length that the text of a `content-length` header gives, if any.
pub open spec fn content_length_of(text: Option<String>) -> Option<u64> {
    match text {
        Some(text) => parsed_u64(text@),
        None => None,
    }
}

/// Reads the text of a `content-length` header.
pub fn parse_content_length(text: &Option<String>) -> (length: Option<u64>)
    ensures
        length == content_length_of(*text),
{
    match text {
        Some(text) => parse_u64(text.as_str()),
        None => None,
    }
}

/// Reads the text of a `content-length` header; a length that is missing or invalid counts as 0.
pub fn length_or_zero(text: &Option<String>) -> (length: u64)
    ensures
        length == match content_length_of(*text) {
            Some(length) => length,
            None => 0,
        },
{
    match parse_content_length(text) {
        Some(length) => length,
        None => 0,
    }
}

/// The first byte of a chunk.
pub open spec fn range_start(chunk_index: u64) -> int {
    chunk_index * CHUNK_SIZE
}

/// The last byte of a chunk of a file that has `total` bytes.
pub open spec fn range_end(chunk_index: u64, total: u64) -> int {
    if range_start(chunk_index) + CHUNK_SIZE <= total {
        range_start(chunk_index) + CHUNK_SIZE - 1
    } else {
        total - 1
    }
}

/// Whether a chunk lies in the range of 64-bit positions.
pub open spec fn fetchable(chunk_index: u64) -> bool {
    range_start(chunk_index) + CHUNK_SIZE <= u64::MAX
}

/// Tells whether a chunk lies in the range of 64-bit positions.
pub fn is_fetchable(chunk_index: u64) -> (fits: bool)
    ensures
        fits == fetchable(chunk_index),
{
    chunk_index < u64::MAX / CHUNK_SIZE
}

/// A chunk that is to be fetched, and the value of the `range` header that asks for it.
#[derive(Debug)]
pub struct ChunkFetch {
    pub chunk_index: u64,
    pub range: String,
}

impl ChunkFetch {
    /// Whether this fetches the given chunk of a file of `total` bytes.
    pub open spec fn is_for(self, chunk_index: u64, total: u64) -> bool {
        &&& self.chunk_index == chunk_index
        &&& self.range@ == "bytes="@ + decimal(range_start(chunk_index) as nat) + "-"@ + decimal(
            range_end(chunk_index, total) as nat,
        )
    }

    /// Asks for a chunk of a file of `total` bytes.
    pub fn new(chunk_index: u64, total: u64) -> (fetch: ChunkFetch)
        requires
            total > 0,
            fetchable(chunk_index),
        ensures
            fetch.is_for(chunk_index, total),
    {
        let start: u64 = chunk_index * CHUNK_SIZE;
        let chunk_end: u64 = start + CHUNK_SIZE - 1;
        let end: u64 = if chunk_end <= total - 1 { chunk_end } else { total - 1 };
        let first = decimal_string(start);
        let last = decimal_string(end);
        let mut range = joined("bytes=", first.as_str());
        range.append("-");
        range.append(last.as_str());
        ChunkFetch { chunk_index, range }
    }
}

/// How a request for a chunk ended.
#[derive(Debug)]
pub enum FetchEvent {
    /// It succeeded, with this body.
    Body(Vec<u8>),
    /// It succeeded, but its body could not be read.
    BodyError(String),
    /// It was answered with another status than success.
    Status(String),
    /// It could not be sent, or was not answered.
    SendError(String),
}

/// What follows a request for a chunk.
#[derive(Debug)]
pub enum FetchAction {
    /// The chunk is there.
    Done(Vec<u8>),
    /// Wait a moment and ask again.
    Retry,
    /// The chunk is given up.
    Fail(String),
}

/// How often a chunk is asked for at most.
pub const MAX_ATTEMPTS: u32 = 3;

/// The requests made for one chunk so far.
#[derive(Debug)]
pub struct FetchAttempts {
    pub chunk_index: u64,
    pub attempts: u32,
}

/// The message about a request for a chunk that ended without the chunk.
pub open spec fn fetch_message(chunk_index: u64, event: FetchEvent) -> Seq<char> {
    match event {
        FetchEvent::Body(_) => Seq::empty(),
        FetchEvent::BodyError(e) => "Fetch bytes error: "@ + e@,
        FetchEvent::Status(status) => "HTTP Status "@ + status@,
        FetchEvent::SendError(e) => "HTTP Error chunk "@ + decimal(chunk_index as nat) + ": "@ + e@,
    }
}

/// Whether `action` is what follows the request number `attempt`, counted from 1.
pub open spec fn follows(
    chunk_index: u64,
    attempt: int,
    event: FetchEvent,
    action: FetchAction,
) -> bool {
    match event {
        FetchEvent::Body(bytes) => action matches FetchAction::Done(given) && given@ == bytes@,
        _ => if attempt < MAX_ATTEMPTS {
            action is Retry
        } else {
            action matches FetchAction::Fail(message) && message@ == fetch_message(
                chunk_index,
                event,
            )
        },
    }
}

impl FetchAttempts {
    /// Before the first request.
    pub fn new(chunk_index: u64) -> (fetch: FetchAttempts)
        ensures
            fetch.chunk_index == chunk_index,
            fetch.attempts == 0,
    {
        FetchAttempts { chunk_index, attempts: 0 }
    }

    /// Decides what follows a request.
    pub fn step(&mut self, event: FetchEvent) -> (action: FetchAction)
        requires
            old(self).attempts < MAX_ATTEMPTS,
        ensures
            final(self).chunk_index == old(self).chunk_index,
            final(self).attempts == old(self).attempts + 1,
            follows(old(self).chunk_index, old(self).attempts + 1, event, action),
            action is Retry ==> final(self).attempts < MAX_ATTEMPTS,
    {
        self.attempts = self.attempts + 1;
        match event {
            FetchEvent::Body(bytes) => FetchAction::Done(bytes),
            failed => if self.attempts < MAX_ATTEMPTS {
                FetchAction::Retry
            } else {
                FetchAction::Fail(failed_fetch(self.chunk_index, failed))
            },
        }
    }
}

fn failed_fetch(chunk_index: u64, event: FetchEvent) -> (message: String)
    ensures
        message@ == fetch_message(chunk_index, event),
{
    match event {
        FetchEvent::Body(_) => String::new(),
        FetchEvent::BodyError(e) => joined("Fetch bytes error: ", e.as_str()),
        FetchEvent::Status(status) => joined("HTTP Status ", status.as_str()),
        FetchEvent::SendError(e) => {
            let number = decimal_string(chunk_index);
            let mut message = joined("HTTP Error chunk ", number.as_str());
            message.append(": ");
            message.append(e.as_str());
            message
        },
    }
}

/// The first of the fetch tasks that did not run to its end, if there is one.
pub open spec fn is_first_failure(failures: Seq<Option<String>>, i: int) -> bool {
    &&& 0 <= i < failures.len()
    &&& failures[i] is Some
    &&& forall|j: int| 0 <= j < i ==> #[trigger] failures[j] is None
}

/// Sums up concurrent fetches: each either ran to its end, whether or not it got its chunk, or
/// left a description of why it did not.
pub fn prefetch_result(failures: &Vec<Option<String>>) -> (result: Result<(), String>)
    ensures
        match result {
            Ok(_) => forall|i: int| 0 <= i < failures@.len() ==> #[trigger] failures@[i] is None,
            Err(message) => exists|i: int| #[trigger]
                is_first_failure(failures@, i) && message@ == "Task spawn error: "@
                    + failures@[i]->0@,
        },
{
    let mut i: usize = 0;
    while i < failures.len()
        invariant
            i <= failures@.len(),
            forall|j: int| 0 <= j < i ==> #[trigger] failures@[j] is None,
        decreases failures@.len() - i,
    {
        match &failures[i] {
            Some(e) => {
                assert(is_first_failure(failures@, i as int));
                return Err(joined("Task spawn error: ", e.as_str()));
            },
            None => {},
        }
        i = i + 1;
    }
    Ok(())
}

/// The bytes of a chunk of a file.
pub open spec fn chunk_bytes(file: Seq<u8>, chunk_index: u64) -> Seq<u8> {
    file.subrange(range_start(chunk_index), range_end(chunk_index, file.len() as u64) + 1)
}

/// The chunks cut a file into adjacent pieces: every byte lies in the chunk that is read for it,
/// and the byte after a chunk's last one is the first of the next chunk or the end of the file.
pub proof fn law_chunks_cut_up_the_file(position: u64, total: u64)
    requires
        position < total,
    ensures
        ({
            let i = position / CHUNK_SIZE;
            &&& range_start(i) <= position <= range_end(i, total) < total
            &&& range_end(i, total) + 1 == total || range_end(i, total) + 1 == range_start(
                (i + 1) as u64,
            )
        }),
{
}

/// A read whose chunk is the file's own hands out the bytes of the file at the position, stays
/// within the file, and hands out at least one byte where there is room for one.
pub proof fn law_read_gives_the_bytes_of_the_file(file: Seq<u8>, position: u64, room: nat)
    requires
        file.len() <= u64::MAX,
        position < file.len(),
    ensures
        ({
            let chunk = chunk_bytes(file, position / CHUNK_SIZE);
            let offset = (position % CHUNK_SIZE) as nat;
            let n = delivered(chunk.len(), offset, room);
            &&& position + n <= file.len()
            &&& n <= room
            &&& room > 0 ==> n > 0
            &&& offset + n <= chunk.len()
            &&& chunk.subrange(offset as int, (offset + n) as int) == file.subrange(
                position as int,
                (position + n) as int,
            )
        }),
{
    let i = position / CHUNK_SIZE;
    let chunk = chunk_bytes(file, i);
    let offset = (position % CHUNK_SIZE) as nat;
    let n = delivered(chunk.len(), offset, room);
    law_chunks_cut_up_the_file(position, file.len() as u64);
    assert(range_start(i) + offset == position);
    assert(chunk.subrange(offset as int, (offset + n) as int) =~= file.subrange(
        position as int,
        (position + n) as int,
    ));
}

/// What reads one after the other hand out, from `position` on, into buffers of the given sizes.
pub open spec fn read_through(file: Seq<u8>, position: int, rooms: Seq<nat>) -> Seq<u8>
    decreases rooms.len(),
{
    if rooms.len() == 0 || position >= file.len() {
        Seq::empty()
    } else {
        let chunk = chunk_bytes(file, (position / CHUNK_SIZE as int) as u64);
        let offset = (position % CHUNK_SIZE as int) as nat;
        let n = delivered(chunk.len(), offset, rooms[0]);
        chunk.subrange(offset as int, (offset + n) as int) + read_through(
            file,
            position + n,
            rooms.drop_first(),
        )
    }
}

/// Reads one after the other hand out the file from the position on, without gaps or repeats.
pub proof fn law_reads_follow_the_file(file: Seq<u8>, position: int, rooms: Seq<nat>)
    requires
        file.len() <= u64::MAX,
        0 <= position <= file.len(),
    ensures
        ({
            let given = read_through(file, position, rooms);
            &&& position + given.len() <= file.len()
            &&& given == file.subrange(position, position + given.len())
        }),
    decreases rooms.len(),
{
    if rooms.len() > 0 && position < file.len() {
        law_read_gives_the_bytes_of_the_file(file, position as u64, rooms[0]);
        let chunk = chunk_bytes(file, (position / CHUNK_SIZE as int) as u64);
        let offset = (position % CHUNK_SIZE as int) as nat;
        let n = delivered(chunk.len(), offset, rooms[0]);
        law_reads_follow_the_file(file, position + n, rooms.drop_first());
        let given = read_through(file, position, rooms);
        assert(given =~= file.subrange(position, position + given.len()));
    } else {
        assert(file.subrange(position, position) =~= Seq::<u8>::empty());
    }
}

/// Enough reads into buffers with room, as many as there are bytes left at most, hand out the whole
/// file from the position on: each of them hands out a byte at least until the end is reached.
pub proof fn law_reads_reach_the_end(file: Seq<u8>, position: int, rooms: Seq<nat>)
    requires
        file.len() <= u64::MAX,
        0 <= position <= file.len(),
        rooms.len() >= file.len() - position,
        forall|i: int| 0 <= i < rooms.len() ==> #[trigger] rooms[i] > 0,
    ensures
        read_through(file, position, rooms) == file.subrange(position, file.len() as int),
    decreases rooms.len(),
{
    if position < file.len() {
        law_read_gives_the_bytes_of_the_file(file, position as u64, rooms[0]);
        let chunk = chunk_bytes(file, (position / CHUNK_SIZE as int) as u64);
        let offset = (position % CHUNK_SIZE as int) as nat;
        let n = delivered(chunk.len(), offset, rooms[0]);
        let rest = rooms.drop_first();
        assert forall|i: int| 0 <= i < rest.len() implies #[trigger] rest[i] > 0 by {
            assert(rest[i] == rooms[i + 1]);
        }
        law_reads_reach_the_end(file, position + n, rest);
        assert(read_through(file, position, rooms) =~= file.subrange(position, file.len() as int));
    } else {
        assert(file.subrange(position, file.len() as int) =~= Seq::<u8>::empty());
    }
}

/// Seeking to any position of a file, or to its end, from its start goes there, if the length of
/// the file fits a signed number.
pub proof fn law_positions_in_the_file_are_seekable(target: u64, content_length: u64, position: u64)
    requires
        target <= content_length <= i64::MAX,
    ensures
        ({
            let aim = seek_position(SeekTarget::Start(target), content_length, position);
            aim == target && seekable(aim, content_length)
        }),
{
}

/// Whether the requests for one chunk may go as `events` say and be followed by `actions`: each
/// but the last was followed by a retry.
pub open spec fn is_fetch_run(
    chunk_index: u64,
    events: Seq<FetchEvent>,
    actions: Seq<FetchAction>,
) -> bool {
    &&& events.len() == actions.len()
    &&& forall|i: int|
        0 <= i < events.len() ==> follows(
            chunk_index,
            i + 1,
            #[trigger] events[i],
            #[trigger] actions[i],
        )
    &&& forall|i: int| 0 <= i < actions.len() - 1 ==> #[trigger] actions[i] is Retry
}

/// A chunk is asked for three times at most. The first request that gets it ends the fetch; where
/// none of the three gets it, the fetch fails with the message about the third.
pub proof fn law_fetch_ends_after_three_requests(
    chunk_index: u64,
    events: Seq<FetchEvent>,
    actions: Seq<FetchAction>,
)
    requires
        is_fetch_run(chunk_index, events, actions),
    ensures
        events.len() <= 3,
        events.len() == 3 ==> !(actions[2] is Retry),
        forall|i: int| 0 <= i < events.len() - 1 ==> !(#[trigger] events[i] is Body),
        events.len() > 0 ==> (actions.last() is Done <==> events.last() is Body),
        actions.len() > 0 && actions.last() is Fail ==> events.len() == 3
            && actions.last()->Fail_0@ == fetch_message(chunk_index, events[2]),
{
    if events.len() > 3 {
        assert(follows(chunk_index, 3, events[2], actions[2]));
    }
    assert forall|i: int| 0 <= i < events.len() - 1 implies !(#[trigger] events[i] is Body) by {
        assert(follows(chunk_index, i + 1, events[i], actions[i]));
    }
    if events.len() > 0 {
        let last = events.len() - 1;
        assert(follows(chunk_index, last + 1, events[last], actions[last]));
    }
}

/// A seek goes to the position that it aims at, counted from the start of the file, from its end or
/// from where the reader is, if that lies in the file or at its end; else the reader stays where it
/// is. Lengths and positions count modulo 2^64 from -2^63 on, so that nothing can be sought in a
/// file of 2^63 bytes or more.
pub proof fn law_seeks_go_where_they_aim(
    reader: &mut HttpRangeReader,
    target: SeekTarget,
    aim: int,
    result: Result<u64, InvalidSeek>,
)
    requires
        call_ensures(HttpRangeReader::seek, (reader, target), result),
        -0x8000_0000_0000_0000 <= aim < 0x8000_0000_0000_0000,
        match target {
            SeekTarget::Start(offset) => aim == offset || aim == offset - 0x1_0000_0000_0000_0000,
            SeekTarget::End(offset) => aim - offset == if old(reader).content_length
                < 0x8000_0000_0000_0000 {
                old(reader).content_length as int
            } else {
                old(reader).content_length - 0x1_0000_0000_0000_0000
            },
            SeekTarget::Current(offset) => aim - offset == if old(reader).position
                < 0x8000_0000_0000_0000 {
                old(reader).position as int
            } else {
                old(reader).position - 0x1_0000_0000_0000_0000
            },
        },
    ensures
        final(reader).url == old(reader).url,
        final(reader).content_length == old(reader).content_length,
        final(reader).aws_profile == old(reader).aws_profile,
        0 <= aim <= old(reader).content_length && old(reader).content_length
            < 0x8000_0000_0000_0000 ==> {
            &&& result == Ok::<u64, InvalidSeek>(aim as u64)
            &&& final(reader).position == aim
        },
        aim < 0 || aim > old(reader).content_length || old(reader).content_length
            >= 0x8000_0000_0000_0000 ==> {
            &&& result is Err
            &&& final(reader).position == old(reader).position
        },
{
}

/// A seek can be made if and only if the position that it aims at is a signed number of 64 bits.
pub proof fn law_seeks_aim_at_signed_positions(
    reader: HttpRangeReader,
    target: SeekTarget,
    aim: int,
    fits: bool,
)
    requires
        call_ensures(HttpRangeReader::can_seek, (&reader, target), fits),
        match target {
            SeekTarget::Start(offset) => aim == if offset < 0x8000_0000_0000_0000 {
                offset as int
            } else {
                offset - 0x1_0000_0000_0000_0000
            },
            SeekTarget::End(offset) => aim - offset == if reader.content_length
                < 0x8000_0000_0000_0000 {
                reader.content_length as int
            } else {
                reader.content_length - 0x1_0000_0000_0000_0000
            },
            SeekTarget::Current(offset) => aim - offset == if reader.position
                < 0x8000_0000_0000_0000 {
                reader.position as int
            } else {
                reader.position - 0x1_0000_0000_0000_0000
            },
        },
    ensures
        seek_position(target, reader.content_length, reader.position) == aim,
        fits <==> -0x8000_0000_0000_0000 <= aim < 0x8000_0000_0000_0000,
{
}

/// A read hands out the bytes of one chunk, of a mebibyte each, from the position on: as many as
/// there is room for or as the chunk still has. The reader moves behind them, and the rest of the
/// buffer stays. At the end of the file, and where the chunk cannot be had, nothing changes.
pub proof fn law_reads_hand_out_the_bytes_of_a_chunk<F>(
    reader: &mut HttpRangeReader,
    buf: &mut [u8],
    fetch: F,
    chunks: spec_fn(u64) -> Result<Arc<Vec<u8>>, String>,
    result: Result<usize, String>,
) where F: FnOnce(u64) -> Result<Arc<Vec<u8>>, String>
    requires
        call_ensures(HttpRangeReader::read::<F>, (reader, buf, fetch), result),
        forall|i: u64, chunk: Result<Arc<Vec<u8>>, String>| #[trigger]
            call_ensures(fetch, (i,), chunk) ==> chunk == chunks(i),
    ensures
        final(reader).url == old(reader).url,
        final(reader).content_length == old(reader).content_length,
        final(reader).aws_profile == old(reader).aws_profile,
        final(buf)@.len() == old(buf)@.len(),
        old(reader).position >= old(reader).content_length ==> {
            &&& result == Ok::<usize, String>(0)
            &&& final(reader).position == old(reader).position
            &&& final(buf)@ == old(buf)@
        },
        old(reader).position < old(reader).content_length ==> {
            let position = old(reader).position as int;
            let offset = position - position / 1048576 * 1048576;
            match chunks((position / 1048576) as u64) {
                Err(e) => {
                    &&& result == Err::<usize, String>(e)
                    &&& final(reader).position == position
                    &&& final(buf)@ == old(buf)@
                },
                Ok(chunk) => {
                    &&& result is Ok
                    &&& result->Ok_0 <= old(buf)@.len()
                    &&& result->Ok_0 > 0 ==> offset + result->Ok_0 <= chunk@.len()
                    &&& result->Ok_0 == old(buf)@.len() || offset + result->Ok_0 >= chunk@.len()
                    &&& final(reader).position == position + result->Ok_0
                    &&& forall|i: int|
                        0 <= i < result->Ok_0 ==> #[trigger] final(buf)@[i] == chunk@[offset + i]
                    &&& forall|i: int|
                        result->Ok_0 <= i < old(buf)@.len() ==> #[trigger] final(buf)@[i]
                            == old(buf)@[i]
                },
            }
        },
{
}

/// Where every chunk that is fetched holds the bytes of the file from its place on, a read hands
/// out the bytes of the file from the position on, and at least one of them if there is room.
pub proof fn law_reads_hand_out_the_bytes_of_the_file<F>(
    reader: &mut HttpRangeReader,
    buf: &mut [u8],
    fetch: F,
    file: Seq<u8>,
    n: usize,
) where F: FnOnce(u64) -> Result<Arc<Vec<u8>>, String>
    requires
        call_ensures(HttpRangeReader::read::<F>, (reader, buf, fetch), Ok(n)),
        file.len() == old(reader).content_length,
        forall|i: u64, chunk: Arc<Vec<u8>>| #[trigger]
            call_ensures(fetch, (i,), Ok(chunk)) ==> {
                &&& chunk@.len() == if (i + 1) * 1048576 <= file.len() {
                    1048576
                } else {
                    file.len() - i * 1048576
                }
                &&& forall|k: int|
                    0 <= k < chunk@.len() ==> #[trigger] chunk@[k] == file[i * 1048576 + k]
            },
    ensures
        old(reader).position < file.len() && old(buf)@.len() > 0 ==> n > 0,
        final(reader).position == old(reader).position + n,
        old(reader).position <= file.len() ==> final(reader).position <= file.len(),
        forall|k: int| 0 <= k < n ==> #[trigger] final(buf)@[k] == file[old(reader).position + k],
{
    let position = old(reader).position as int;
    if position < file.len() {
        let i = old(reader).position / CHUNK_SIZE;
        let fetched = choose|fetched: Result<Arc<Vec<u8>>, String>|
            #![trigger call_ensures(fetch, (i,), fetched)]
            {
                &&& call_ensures(fetch, (i,), fetched)
                &&& match fetched {
                    Err(e) => Ok::<usize, String>(n) == Err::<usize, String>(e),
                    Ok(chunk) => {
                        let offset = (old(reader).position % CHUNK_SIZE) as nat;
                        let given = delivered(chunk@.len(), offset, old(buf)@.len());
                        &&& n == given
                        &&& final(reader).position == position + given
                        &&& forall|k: int|
                            0 <= k < given ==> #[trigger] final(buf)@[k] == chunk@[offset + k]
                    },
                }
            };
        let chunk = fetched->Ok_0;
        assert(call_ensures(fetch, (i,), Ok(chunk)));
        let offset = (old(reader).position % CHUNK_SIZE) as int;
        assert forall|k: int| 0 <= k < n implies #[trigger] final(buf)@[k] == file[position
            + k] by {
            assert(chunk@[offset + k] == file[i * 1048576 + (offset + k)]);
        }
    }
}

/// A chunk is asked for by the place of its first byte, which is its number of mebibytes, and of
/// its last, which is a mebibyte on or the last of the file.
pub proof fn law_chunks_are_asked_for_by_their_bytes(
    chunk_index: u64,
    total: u64,
    first: nat,
    last: nat,
    fetch: ChunkFetch,
)
    requires
        call_ensures(ChunkFetch::new, (chunk_index, total), fetch),
        total > 0,
        first == 1048576 * chunk_index,
        last + 1 == if first + 1048576 < total {
            first + 1048576
        } else {
            total as nat
        },
    ensures
        fetch.chunk_index == chunk_index,
        fetch.range@ == "bytes="@ + decimal(first) + "-"@ + decimal(last),
{
}

/// Each of the given chunks is asked for in its turn, by the place of its first and last byte.
pub proof fn law_each_chunk_is_asked_for_in_turn(
    reader: HttpRangeReader,
    chunk_indices: &[u64],
    fetches: Vec<ChunkFetch>,
    i: int,
    first: nat,
    last: nat,
)
    requires
        call_ensures(HttpRangeReader::cache_chunks_concurrently, (&reader, chunk_indices), fetches),
        reader.content_length > 0,
        0 <= i < chunk_indices@.len(),
        first == 1048576 * chunk_indices@[i],
        last + 1 == if first + 1048576 < reader.content_length {
            first + 1048576
        } else {
            reader.content_length as nat
        },
    ensures
        fetches@.len() == chunk_indices@.len(),
        fetches@[i].chunk_index == chunk_indices@[i],
        fetches@[i].range@ == "bytes="@ + decimal(first) + "-"@ + decimal(last),
{
    assert(fetches@[i].is_for(chunk_indices@[i], reader.content_length));
}

/// A chunk can be asked for if the byte after its last one has a place.
pub proof fn law_chunks_in_the_range_can_be_asked_for(chunk_index: u64, fits: bool)
    requires
        call_ensures(is_fetchable, (chunk_index,), fits),
    ensures
        fits == fetchable(chunk_index),
        fits <==> (chunk_index + 1) * 1048576 <= 0xFFFF_FFFF_FFFF_FFFF,
{
}

/// A body ends the requests for a chunk. After any other answer the chunk is asked for again,
/// unless this was the third time: then the answer is told, with the number of the chunk where
/// there was none.
pub proof fn law_requests_are_tried_three_times(
    fetch: &mut FetchAttempts,
    event: FetchEvent,
    action: FetchAction,
)
    requires
        call_ensures(FetchAttempts::step, (fetch, event), action),
    ensures
        final(fetch).chunk_index == old(fetch).chunk_index,
        final(fetch).attempts == old(fetch).attempts + 1,
        event matches FetchEvent::Body(bytes) ==> (action matches FetchAction::Done(given)
            && given@ == bytes@),
        !(event is Body) && old(fetch).attempts < 2 ==> action is Retry,
        !(event is Body) && old(fetch).attempts >= 2 ==> (action matches FetchAction::Fail(message)
            && match event {
            FetchEvent::Body(_) => true,
            FetchEvent::BodyError(e) => message@ == "Fetch bytes error: "@ + e@,
            FetchEvent::Status(status) => message@ == "HTTP Status "@ + status@,
            FetchEvent::SendError(e) => message@ == "HTTP Error chunk "@ + decimal(
                old(fetch).chunk_index as nat,
            ) + ": "@ + e@,
        }),
{
}

/// No request was made for a chunk before the first.
pub proof fn law_requests_are_counted_from_zero(chunk_index: u64, fetch: FetchAttempts)
    requires
        call_ensures(FetchAttempts::new, (chunk_index,), fetch),
    ensures
        fetch.chunk_index == chunk_index,
        fetch.attempts == 0,
{
}

/// Of concurrent fetches that did not run to their end the first is told; where all did, none.
pub proof fn law_first_lost_fetch_is_told(
    failures: Vec<Option<String>>,
    i: int,
    result: Result<(), String>,
)
    requires
        call_ensures(prefetch_result, (&failures,), result),
        0 <= i <= failures@.len(),
        forall|j: int| 0 <= j < i ==> #[trigger] failures@[j] is None,
        i < failures@.len() ==> failures@[i] is Some,
    ensures
        i == failures@.len() ==> result is Ok,
        i < failures@.len() ==> (result matches Err(message) && message@ == "Task spawn error: "@
            + failures@[i]->0@),
{
    match result {
        Ok(_) => {
            if i < failures@.len() {
                assert(failures@[i] is None);
            }
        },
        Err(message) => {
            let k = choose|k: int| #[trigger]
                is_first_failure(failures@, k) && message@ == "Task spawn error: "@
                    + failures@[k]->0@;
            if k < i {
                assert(failures@[k] is None);
            }
            if i < k {
                assert(failures@[i] is None);
            }
        },
    }
}

/// A reader starts at the start of its file, whose length is the number that the server told; an
/// answer without a number, and a request that could not be made, are complained of.
pub proof fn law_readers_start_with_the_length_that_was_told(
    url: &str,
    head: HeadOutcome,
    aws_profile: Option<String>,
    result: Result<HttpRangeReader, String>,
)
    requires
        call_ensures(HttpRangeReader::new, (url, head, aws_profile), result),
    ensures
        match head {
            HeadOutcome::NotSigned(e) => result matches Err(message) && message@ == e@,
            HeadOutcome::Failed(e) => result matches Err(message) && message@
                == "HEAD request failed: "@ + e@,
            HeadOutcome::Answered(None) => result matches Err(message) && message@
                == "Missing or invalid content-length header"@,
            HeadOutcome::Answered(Some(text)) => match parsed_u64(text@) {
                None => result matches Err(message) && message@
                    == "Missing or invalid content-length header"@,
                Some(length) => result matches Ok(reader) && reader.url@ == url@
                    && reader.content_length == length && reader.position == 0
                    && reader.aws_profile == aws_profile,
            },
        },
{
}

/// A reader of a file whose length is known starts at its start, and tells that length.
pub proof fn law_readers_know_the_given_length(
    url: &str,
    content_length: u64,
    aws_profile: Option<String>,
    reader: HttpRangeReader,
    told: u64,
)
    requires
        call_ensures(
            HttpRangeReader::new_with_details,
            (url, content_length, aws_profile),
            reader,
        ),
        call_ensures(HttpRangeReader::content_length, (&reader,), told),
    ensures
        told == content_length,
        reader.content_length == content_length,
        reader.url@ == url@,
        reader.position == 0,
        reader.aws_profile == aws_profile,
{
}

/// The length that a header tells is the number that its text is in decimal notation; text that is
/// none tells no length, which can be taken as 0.
pub proof fn law_lengths_are_told_in_decimal_notation(
    text: Option<String>,
    length: Option<u64>,
    or_zero: u64,
)
    requires
        call_ensures(parse_content_length, (&text,), length),
        call_ensures(length_or_zero, (&text,), or_zero),
    ensures
        text is None ==> length is None,
        text matches Some(text) ==> length == parsed_u64(text@),
        length is None ==> or_zero == 0,
        length matches Some(n) ==> or_zero == n,
{
}

} // verus!
