//! Per-file reassembly state (`File`) and the transfer session (`Session`)
//! that routes decoded packets and collects completed files.

use std::collections::HashMap;
use vstd::prelude::*;

use crate::packets::{
    data_decode_error, data_decodes, header_decode_error, header_decodes, is_data_class,
    is_last_flag, packet_number_of, DataPacket, FileId, HeaderPacket, PacketNumber, TransferError,
};
use vstd::slice::slice_index_get;
use vstd::utf8::decode_utf8;

verus! {

broadcast use vstd::std_specs::hash::group_hash_axioms;

/// The mathematical state of one in-flight file: its identifier, the
/// filename if a header has arrived, the segments received so far keyed by
/// sequence number, and the terminal sequence number if a final-flagged
/// data packet has arrived.
#[verifier::ext_equal]
pub ghost struct FileModel {
    pub file_id: u8,
    pub name: Option<Seq<char>>,
    pub segments: Map<u16, Seq<u8>>,
    pub max_segment: Option<u16>,
}

impl FileModel {
    /// The state of a file no packet has touched yet.
    pub open spec fn empty(file_id: u8) -> FileModel {
        FileModel { file_id, name: None, segments: Map::empty(), max_segment: None }
    }

    /// The state after a header packet: the name is set or overwritten,
    /// nothing else changes.
    pub open spec fn apply_header(self, name: Seq<char>) -> FileModel {
        FileModel { name: Some(name), ..self }
    }

    /// The state after a data packet: the segment at its sequence number is
    /// inserted or overwritten, and a final-flagged packet records its
    /// number as the terminal one (last writer wins).
    pub open spec fn apply_data(self, number: u16, payload: Seq<u8>, is_last: bool) -> FileModel {
        FileModel {
            segments: self.segments.insert(number, payload),
            max_segment: if is_last {
                Some(number)
            } else {
                self.max_segment
            },
            ..self
        }
    }

    /// The completion gate: a name, a terminal number, and as many distinct
    /// segments as that number requires. This counts segments; it does not
    /// check which sequence numbers they sit at, so `finalize` must still
    /// verify membership.
    pub open spec fn is_done(self) -> bool {
        &&& self.name is Some
        &&& self.max_segment is Some
        &&& self.segments.len() == self.max_segment->0 + 1
    }

    /// How many segments the byte stream spans: the terminal number plus
    /// one, or zero while no final-flagged packet has arrived.
    pub open spec fn segment_span(self) -> int {
        match self.max_segment {
            Some(m) => m + 1,
            None => 0,
        }
    }

    /// Every sequence number the byte stream spans has a segment.
    pub open spec fn has_all_segments(self) -> bool {
        forall|i: int| 0 <= i < self.segment_span() ==> self.segments.contains_key(#[trigger] (i as u16))
    }

    /// The first `n` segments laid out in ascending sequence order.
    pub open spec fn assembled(self, n: int) -> Seq<u8>
        decreases n,
    {
        if n <= 0 {
            Seq::empty()
        } else {
            self.assembled(n - 1) + self.segments[(n - 1) as u16]
        }
    }

    /// Whether `finalize` accepts this file: a recorded name and a segment
    /// at every spanned sequence number.
    pub open spec fn finalizable(self) -> bool {
        self.name is Some && self.has_all_segments()
    }

    /// The error `finalize` reports on a file it rejects.
    pub open spec fn finalize_error(self) -> TransferError {
        if self.name is None {
            TransferError::MissingName
        } else {
            TransferError::IncompleteFile
        }
    }
}

proof fn lemma_u16_prefix_len(n: int)
    requires
        0 <= n <= 65536,
    ensures
        Set::new(|k: u16| (k as int) < n).finite(),
        Set::new(|k: u16| (k as int) < n).len() == n,
    decreases n,
{
    if n == 0 {
        assert(Set::new(|k: u16| (k as int) < 0) =~= Set::<u16>::empty());
    } else {
        lemma_u16_prefix_len(n - 1);
        assert(Set::new(|k: u16| (k as int) < n - 1).insert((n - 1) as u16) =~= Set::new(
            |k: u16| (k as int) < n,
        ));
    }
}

/// Law: the count-based completion gate is exact as long as no segment sits
/// at a sequence number beyond the terminal one. A done file whose segment
/// keys all lie within the spanned range has a segment at every spanned
/// sequence number, so `finalize` accepts it. (With a stray key beyond the
/// range the count can match while a spanned number is missing; that is
/// what `finalize` still checks for.)
pub proof fn lemma_count_gate_exact_without_strays(f: FileModel)
    requires
        f.is_done(),
        f.segments.dom().finite(),
        forall|k: u16| #[trigger] f.segments.contains_key(k) ==> (k as int) < f.segment_span(),
    ensures
        f.finalizable(),
{
    let span = f.segment_span();
    let spanned = Set::new(|k: u16| (k as int) < span);
    lemma_u16_prefix_len(span);
    assert(f.segments.dom().subset_of(spanned));
    vstd::set_lib::lemma_len_subset(f.segments.dom(), spanned);
    vstd::set_lib::lemma_subset_equality(f.segments.dom(), spanned);
    assert forall|i: int| 0 <= i < span implies f.segments.contains_key(#[trigger] (i as u16)) by {
        assert(spanned.contains(i as u16));
    }
}

/// The segment store as a mathematical map: each payload vector replaced by
/// its byte sequence.
pub open spec fn seg_views(m: Map<u16, Vec<u8>>) -> Map<u16, Seq<u8>> {
    m.map_values(|v: Vec<u8>| v@)
}

proof fn lemma_seg_views_insert(m: Map<u16, Vec<u8>>, k: u16, v: Vec<u8>)
    ensures
        seg_views(m.insert(k, v)) == seg_views(m).insert(k, v@),
{
    assert(seg_views(m.insert(k, v)) =~= seg_views(m).insert(k, v@));
}

proof fn lemma_seg_views_dom(m: Map<u16, Vec<u8>>)
    ensures
        seg_views(m).dom() == m.dom(),
{
    assert(seg_views(m).dom() =~= m.dom());
}

/// Reassembly state for one file identifier.
pub struct File {
    file_id: FileId,
    name: Option<String>,
    segments: HashMap<PacketNumber, Vec<u8>>,
    max_segments: Option<PacketNumber>,
}

impl View for File {
    type V = FileModel;

    closed spec fn view(&self) -> FileModel {
        FileModel {
            file_id: self.file_id,
            name: match self.name {
                Some(s) => Some(s@),
                None => None,
            },
            segments: seg_views(self.segments@),
            max_segment: self.max_segments,
        }
    }
}

/// The result of finalizing one file: its name and its bytes in ascending
/// sequence order.
#[derive(Debug)]
pub struct CompletedFile {
    pub name: String,
    pub data: Vec<u8>,
}

impl File {
    pub fn new(file_id: FileId) -> (r: File)
        ensures
            r@ == FileModel::empty(file_id),
    {
        let segments: HashMap<PacketNumber, Vec<u8>> = HashMap::new();
        proof {
            assert(seg_views(segments@) =~= Map::<u16, Seq<u8>>::empty());
        }
        File { file_id, name: None, segments, max_segments: None }
    }

    pub fn report_header_packet(&mut self, data: HeaderPacket)
        ensures
            final(self)@ == old(self)@.apply_header(data.name@),
    {
        self.name = Some(data.name);
    }

    pub fn report_data_packet(&mut self, data: DataPacket)
        ensures
            final(self)@ == old(self)@.apply_data(data.packet_number, data.data@, data.is_last),
    {
        proof {
            lemma_seg_views_insert(self.segments@, data.packet_number, data.data);
        }
        self.segments.insert(data.packet_number, data.data);
        if data.is_last {
            self.max_segments = Some(data.packet_number);
        }
    }

    /// The strict finalize gate for one file: unlike the count-based
    /// [`is_done`](File::is_done), this checks that a segment actually sits
    /// at every spanned sequence number, and lays the bytes out in
    /// ascending order.
    pub fn output(&self) -> (r: Result<CompletedFile, TransferError>)
        ensures
            r is Ok <==> self@.finalizable(),
            r matches Ok(c) ==> {
                &&& Some(c.name@) == self@.name
                &&& c.data@ == self@.assembled(self@.segment_span())
            },
            r matches Err(e) ==> e == self@.finalize_error(),
    {
        proof {
            lemma_seg_views_dom(self.segments@);
        }
        let name = match &self.name {
            Some(n) => n.clone(),
            None => {
                return Err(TransferError::MissingName);
            },
        };
        let mut data: Vec<u8> = Vec::new();
        if let Some(max) = self.max_segments {
            let mut i: u32 = 0;
            while i <= max as u32
                invariant
                    i <= max as u32 + 1,
                    self@.name is Some,
                    self@.max_segment == Some(max),
                    data@ == self@.assembled(i as int),
                    forall|j: int| 0 <= j < i ==> self@.segments.contains_key(#[trigger] (j as u16)),
                decreases max as int + 1 - i as int,
            {
                proof {
                    lemma_seg_views_dom(self.segments@);
                }
                match self.segments.get(&(i as u16)) {
                    Some(seg) => {
                        let mut part = vstd::slice::slice_to_vec(seg.as_slice());
                        data.append(&mut part);
                    },
                    None => {
                        return Err(TransferError::IncompleteFile);
                    },
                }
                i = i + 1;
            }
        }
        Ok(CompletedFile { name, data })
    }

    pub fn is_done(&self) -> (r: bool)
        ensures
            r == self@.is_done(),
    {
        proof {
            lemma_seg_views_dom(self.segments@);
        }
        if let Some(max_segments) = self.max_segments {
            self.name.is_some() && self.segments.len() == max_segments as usize + 1
        } else {
            false
        }
    }

    /// The identifier this assembler is scoped to.
    pub fn file_id(&self) -> (r: FileId)
        ensures
            r == self@.file_id,
    {
        self.file_id
    }

    /// The filename, if a header packet has arrived.
    pub fn name(&self) -> (r: &Option<String>)
        ensures
            r is Some <==> self@.name is Some,
            r matches Some(s) ==> Some(s@) == self@.name,
    {
        &self.name
    }

    /// How many distinct sequence numbers have a segment so far.
    pub fn segment_count(&self) -> (r: usize)
        ensures
            r == self@.segments.len(),
    {
        proof {
            lemma_seg_views_dom(self.segments@);
        }
        self.segments.len()
    }

    /// The total number of segments this file expects, if a final-flagged
    /// data packet has told us.
    pub fn expected_segments(&self) -> (r: Option<usize>)
        ensures
            match r {
                Some(n) => n == self@.segment_span(),
                None => self@.max_segment is None,
            },
    {
        match self.max_segments {
            Some(m) => Some(m as usize + 1),
            None => None,
        }
    }
}

/// The mathematical state of a session: the in-flight files keyed by
/// identifier, and the completed ones in completion order.
#[verifier::ext_equal]
pub ghost struct SessionModel {
    pub in_progress: Map<u8, FileModel>,
    pub completed: Seq<FileModel>,
}

impl SessionModel {
    /// The assembler a packet for `id` lands in: the in-flight one, or a
    /// fresh one created on first contact.
    pub open spec fn target(self, id: u8) -> FileModel {
        if self.in_progress.contains_key(id) {
            self.in_progress[id]
        } else {
            FileModel::empty(id)
        }
    }

    /// The state after routing one accepted buffer: the touched assembler
    /// absorbs the packet, and moves to `completed` the instant it is done.
    pub open spec fn route_result(self, buf: Seq<u8>) -> SessionModel {
        let id = buf[1];
        let touched = apply_packet(self.target(id), buf);
        if touched.is_done() {
            SessionModel {
                in_progress: self.in_progress.remove(id),
                completed: self.completed.push(touched),
            }
        } else {
            SessionModel {
                in_progress: self.in_progress.insert(id, touched),
                completed: self.completed,
            }
        }
    }
}

/// What an accepted buffer does to the assembler it is routed to.
pub open spec fn apply_packet(f: FileModel, buf: Seq<u8>) -> FileModel {
    if is_data_class(buf[0]) {
        f.apply_data(packet_number_of(buf), buf.skip(4), is_last_flag(buf[0]))
    } else {
        f.apply_header(decode_utf8(buf.skip(2)))
    }
}

/// The buffers `route` accepts: non-empty, and decodable by the decoder its
/// class bit selects.
pub open spec fn route_accepts(buf: Seq<u8>) -> bool {
    &&& buf.len() >= 1
    &&& if is_data_class(buf[0]) {
        data_decodes(buf)
    } else {
        header_decodes(buf)
    }
}

/// The error `route` reports on a buffer it rejects.
pub open spec fn route_error(buf: Seq<u8>) -> TransferError {
    if buf.len() == 0 {
        TransferError::TooShort
    } else if is_data_class(buf[0]) {
        data_decode_error(buf)
    } else {
        header_decode_error(buf)
    }
}

/// The in-flight store as a mathematical map: each assembler replaced by
/// its model.
pub open spec fn progress_views(m: Map<u8, File>) -> Map<u8, FileModel> {
    m.map_values(|f: File| f@)
}

/// A row of assemblers replaced by their models.
pub open spec fn file_views(s: Seq<File>) -> Seq<FileModel> {
    s.map_values(|f: File| f@)
}

proof fn lemma_progress_views_insert(m: Map<u8, File>, k: u8, f: File)
    ensures
        progress_views(m.insert(k, f)) == progress_views(m).insert(k, f@),
{
    assert(progress_views(m.insert(k, f)) =~= progress_views(m).insert(k, f@));
}

proof fn lemma_progress_views_remove(m: Map<u8, File>, k: u8)
    ensures
        progress_views(m.remove(k)) == progress_views(m).remove(k),
{
    assert(progress_views(m.remove(k)) =~= progress_views(m).remove(k));
}

proof fn lemma_progress_views_dom(m: Map<u8, File>)
    ensures
        progress_views(m).dom() == m.dom(),
{
    assert(progress_views(m).dom() =~= m.dom());
}

proof fn lemma_file_views_push(s: Seq<File>, f: File)
    ensures
        file_views(s.push(f)) == file_views(s).push(f@),
{
    assert(file_views(s.push(f)) =~= file_views(s).push(f@));
}

/// The client-side aggregate: every in-flight assembler plus the files
/// whose completion gate has passed, in the order they passed it.
pub struct Session {
    in_progress: HashMap<FileId, File>,
    completed: Vec<File>,
}

impl View for Session {
    type V = SessionModel;

    closed spec fn view(&self) -> SessionModel {
        SessionModel {
            in_progress: progress_views(self.in_progress@),
            completed: file_views(self.completed@),
        }
    }
}

impl Session {
    /// The session invariant: every in-flight assembler sits under its own
    /// identifier and has not yet passed the completion gate (`route` moves
    /// it out the instant it does), and every completed file has passed it.
    pub open spec fn wf(self) -> bool {
        &&& forall|id: u8| #[trigger]
            self@.in_progress.contains_key(id) ==> self@.in_progress[id].file_id == id
                && !self@.in_progress[id].is_done()
        &&& forall|k: int|
            0 <= k < self@.completed.len() ==> (#[trigger] self@.completed[k]).is_done()
    }

    pub fn new() -> (r: Session)
        ensures
            r.wf(),
            r@.in_progress == Map::<u8, FileModel>::empty(),
            r@.completed == Seq::<FileModel>::empty(),
    {
        let in_progress: HashMap<FileId, File> = HashMap::new();
        let completed: Vec<File> = Vec::new();
        proof {
            assert(progress_views(in_progress@) =~= Map::<u8, FileModel>::empty());
            assert(file_views(completed@) =~= Seq::<FileModel>::empty());
        }
        Session { in_progress, completed }
    }

    /// Stores a just-updated assembler back: into `completed` if it is done,
    /// under its identifier otherwise.
    fn place(&mut self, id: FileId, file: File)
        ensures
            file@.is_done() ==> final(self)@.in_progress == old(self)@.in_progress
                && final(self)@.completed == old(self)@.completed.push(file@),
            !file@.is_done() ==> final(self)@.in_progress == old(self)@.in_progress.insert(
                id,
                file@,
            ) && final(self)@.completed == old(self)@.completed,
    {
        proof {
            lemma_file_views_push(self.completed@, file);
            lemma_progress_views_insert(self.in_progress@, id, file);
        }
        if file.is_done() {
            self.completed.push(file);
        } else {
            self.in_progress.insert(id, file);
        }
    }

    /// Takes the assembler a packet for `id` lands in out of the in-flight
    /// store: the stored one, or a fresh one on first contact.
    fn take_target(&mut self, id: FileId) -> (r: File)
        ensures
            r@ == old(self)@.target(id),
            final(self)@.in_progress == old(self)@.in_progress.remove(id),
            final(self)@.completed == old(self)@.completed,
    {
        proof {
            lemma_progress_views_remove(self.in_progress@, id);
        }
        match self.in_progress.remove(&id) {
            Some(f) => f,
            None => File::new(id),
        }
    }

    /// Routes one raw datagram: decodes it by its class bit, reports it to
    /// the assembler for its file identifier (created on first contact), and
    /// moves that assembler to `completed` the instant it passes the
    /// completion gate. A rejected buffer leaves the session untouched.
    ///
    /// Only the touched assembler is re-examined: by the session invariant
    /// no other in-flight file can be done.
    ///
    /// An identifier whose earlier file has already completed is treated as
    /// a fresh transfer: the packet starts a new assembler, and the
    /// completed file keeps its place.
    pub fn route(&mut self, buf: &[u8]) -> (r: Result<(), TransferError>)
        requires
            old(self).wf(),
        ensures
            final(self).wf(),
            r is Ok <==> route_accepts(buf@),
            r is Ok ==> final(self)@ == old(self)@.route_result(buf@),
            r matches Err(e) ==> final(self)@ == old(self)@ && e == route_error(buf@),
    {
        if buf.len() == 0 {
            return Err(TransferError::TooShort);
        }
        if *slice_index_get(buf, 0) & 1 == 1 {
            let packet = match DataPacket::decode(buf) {
                Ok(p) => p,
                Err(e) => {
                    return Err(e);
                },
            };
            let id = packet.file_id;
            let mut file = self.take_target(id);
            file.report_data_packet(packet);
            self.place(id, file);
            proof {
                assert(self@ =~= old(self)@.route_result(buf@));
            }
        } else {
            let packet = match HeaderPacket::decode(buf) {
                Ok(p) => p,
                Err(e) => {
                    return Err(e);
                },
            };
            let id = packet.file_id;
            let mut file = self.take_target(id);
            file.report_header_packet(packet);
            self.place(id, file);
            proof {
                assert(self@ =~= old(self)@.route_result(buf@));
            }
        }
        Ok(())
    }

    /// How many files have completed so far.
    pub fn file_count(&self) -> (r: usize)
        ensures
            r == self@.completed.len(),
    {
        self.completed.len()
    }

    /// How many terminal lines a progress report of this session takes: one
    /// per file, plus the two captions.
    pub fn print_line_length(&self) -> (r: usize)
        requires
            self@.in_progress.len() + self@.completed.len() + 2 <= usize::MAX,
        ensures
            r == 2 + self@.in_progress.len() + self@.completed.len(),
    {
        proof {
            lemma_progress_views_dom(self.in_progress@);
        }
        2 + self.in_progress.len() + self.completed.len()
    }

    /// The in-flight assemblers in ascending identifier order, for a
    /// progress reporter to walk: every in-flight identifier appears, each
    /// entry is the assembler stored under its identifier.
    pub fn in_progress_files(&self) -> (r: Vec<&File>)
        requires
            self.wf(),
        ensures
            forall|j: int|
                0 <= j < r@.len() ==> {
                    &&& self@.in_progress.contains_key((#[trigger] r@[j])@.file_id)
                    &&& r@[j]@ == self@.in_progress[r@[j]@.file_id]
                },
            forall|id: u8| #[trigger]
                self@.in_progress.contains_key(id) ==> exists|j: int|
                    0 <= j < r@.len() && (#[trigger] r@[j])@.file_id == id,
            forall|j1: int, j2: int|
                0 <= j1 < j2 < r@.len() ==> (#[trigger] r@[j1])@.file_id < (#[trigger] r@[j2])@.file_id,
    {
        let mut r: Vec<&File> = Vec::new();
        let mut id: usize = 0;
        while id < 256
            invariant
                self.wf(),
                id <= 256,
                forall|j: int|
                    0 <= j < r@.len() ==> {
                        &&& (#[trigger] r@[j])@.file_id < id
                        &&& self@.in_progress.contains_key(r@[j]@.file_id)
                        &&& r@[j]@ == self@.in_progress[r@[j]@.file_id]
                    },
                forall|i2: u8|
                    i2 < id && #[trigger] self@.in_progress.contains_key(i2) ==> exists|j: int|
                        0 <= j < r@.len() && (#[trigger] r@[j])@.file_id == i2,
                forall|j1: int, j2: int|
                    0 <= j1 < j2 < r@.len() ==> (#[trigger] r@[j1])@.file_id < (#[trigger] r@[j2])@.file_id,
            decreases 256 - id,
        {
            proof {
                lemma_progress_views_dom(self.in_progress@);
            }
            let ghost prefix = r@;
            match self.in_progress.get(&(id as u8)) {
                Some(f) => {
                    proof {
                        assert(f@ == self@.in_progress[id as u8]);
                    }
                    r.push(f);
                    proof {
                        assert(forall|j: int| 0 <= j < prefix.len() ==> r@[j] == prefix[j]);
                        assert((r@[prefix.len() as int])@.file_id == id as u8);
                    }
                },
                None => {},
            }
            id = id + 1;
        }
        r
    }

    /// The completed files in completion order, for a progress reporter to
    /// walk.
    pub fn completed_files(&self) -> (r: Vec<&File>)
        ensures
            r@.len() == self@.completed.len(),
            forall|k: int| 0 <= k < r@.len() ==> (#[trigger] r@[k])@ == self@.completed[k],
    {
        let mut r: Vec<&File> = Vec::new();
        let n = self.completed.len();
        let mut k: usize = 0;
        while k < n
            invariant
                k <= n,
                n == self.completed@.len(),
                r@.len() == k,
                forall|j: int| 0 <= j < k ==> (#[trigger] r@[j])@ == self@.completed[j],
            decreases n - k,
        {
            r.push(&self.completed[k]);
            k = k + 1;
        }
        r
    }

    /// Consumes the session and lays every completed file out: its name and
    /// its bytes in ascending sequence order from zero to the terminal
    /// number. This is the authoritative gate: it fails on the first
    /// completed file missing a name or missing any spanned sequence
    /// number, which the count-based completion gate does not rule out.
    pub fn finalize(self) -> (r: Result<Vec<CompletedFile>, TransferError>)
        ensures
            r is Ok <==> (forall|k: int|
                0 <= k < self@.completed.len() ==> (#[trigger] self@.completed[k]).finalizable()),
            r matches Ok(v) ==> {
                &&& v@.len() == self@.completed.len()
                &&& forall|k: int|
                    0 <= k < v@.len() ==> {
                        let f = self@.completed[k];
                        Some((#[trigger] v@[k]).name@) == f.name && v@[k].data@ == f.assembled(
                            f.segment_span(),
                        )
                    }
            },
            r matches Err(e) ==> exists|k: int|
                {
                    &&& 0 <= k < self@.completed.len()
                    &&& !(#[trigger] self@.completed[k]).finalizable()
                    &&& forall|j: int| 0 <= j < k ==> self@.completed[j].finalizable()
                    &&& e == self@.completed[k].finalize_error()
                },
    {
        let mut out: Vec<CompletedFile> = Vec::new();
        let n = self.completed.len();
        let mut k: usize = 0;
        while k < n
            invariant
                k <= n,
                n == self@.completed.len(),
                out@.len() == k,
                forall|j: int| 0 <= j < k ==> (#[trigger] self@.completed[j]).finalizable(),
                forall|j: int|
                    0 <= j < k ==> {
                        let f = self@.completed[j];
                        Some((#[trigger] out@[j]).name@) == f.name && out@[j].data@ == f.assembled(
                            f.segment_span(),
                        )
                    },
            decreases n - k,
        {
            let file = &self.completed[k];
            proof {
                assert(self@.completed[k as int] == self.completed@[k as int]@);
            }
            match file.output() {
                Ok(c) => out.push(c),
                Err(e) => {
                    proof {
                        let bad = k as int;
                        assert({
                            &&& 0 <= bad < self@.completed.len()
                            &&& !self@.completed[bad].finalizable()
                            &&& forall|j: int| 0 <= j < bad ==> self@.completed[j].finalizable()
                            &&& e == self@.completed[bad].finalize_error()
                        });
                    }
                    return Err(e);
                },
            }
            k = k + 1;
        }
        Ok(out)
    }
}

} // verus!
