//! The bookkeeping of a retention that uploads to an object store: small
//! payloads go up in one object, larger ones in parts of a multipart upload
//! that starts at the first part boundary. The store's operations are
//! asynchronous; the retention asks this session what to do next and tells
//! it what the store answered.

use vstd::prelude::*;

use crate::io::{push_all, Error as IoError, Read};

verus! {

/// The size of an uploaded part: the buffered bytes go up once they reach it.
pub const PART_SIZE: usize = 8 * 1024 * 1024;

/// What uploading the buffered bytes takes next.
#[derive(Debug, Clone, Copy, PartialEq, Eq, Structural)]
pub enum UploadStep {
    /// Nothing is buffered: nothing to upload.
    Idle,
    /// No multipart upload was started: start one.
    CreateUpload,
    /// Upload the buffered bytes as the part with this number.
    UploadPart(i32),
}

/// What flushing the retention takes next.
#[derive(Debug, Clone, Copy, PartialEq, Eq, Structural)]
pub enum FlushStep {
    /// No multipart upload: store the buffered bytes as one object.
    PutObject,
    /// Upload the last buffered bytes as the part with this number.
    UploadPart(i32),
    /// Complete the multipart upload from its parts.
    Complete,
}

/// The state of an upload: the multipart upload's id once started, the
/// bytes buffered for the next part, the parts uploaded (number and tag),
/// and whether the upload was completed or discarded.
pub struct MultipartUpload {
    upload_id: Option<String>,
    buffer: Vec<u8>,
    part_number: i32,
    parts: Vec<(i32, String)>,
    completed: bool,
}

impl MultipartUpload {
    pub closed spec fn spec_upload_id(&self) -> Option<String> {
        self.upload_id
    }

    pub closed spec fn spec_buffered(&self) -> Seq<u8> {
        self.buffer@
    }

    /// The number of the last part uploaded (0 before the first).
    pub closed spec fn spec_part_number(&self) -> i32 {
        self.part_number
    }

    pub closed spec fn spec_parts(&self) -> Seq<(i32, String)> {
        self.parts@
    }

    pub closed spec fn spec_completed(&self) -> bool {
        self.completed
    }

    pub fn new() -> (r: Self)
        ensures
            r.spec_upload_id() is None,
            r.spec_buffered() == Seq::<u8>::empty(),
            r.spec_part_number() == 0,
            r.spec_parts() == Seq::<(i32, String)>::empty(),
            !r.spec_completed(),
    {
        MultipartUpload {
            upload_id: None,
            buffer: Vec::with_capacity(PART_SIZE),
            part_number: 0,
            parts: Vec::new(),
            completed: false,
        }
    }

    /// The multipart upload's id, once started.
    pub fn upload_id(&self) -> (r: Option<&String>)
        ensures
            match r {
                Some(id) => self.spec_upload_id() == Some(*id),
                None => self.spec_upload_id() is None,
            },
    {
        match &self.upload_id {
            Some(id) => Some(id),
            None => None,
        }
    }

    /// The bytes buffered for the next part (or the single object).
    pub fn buffered(&self) -> (r: &[u8])
        ensures
            r@ == self.spec_buffered(),
    {
        self.buffer.as_slice()
    }

    /// The parts uploaded, in order: their numbers and tags.
    pub fn parts(&self) -> (r: &[(i32, String)])
        ensures
            r@ == self.spec_parts(),
    {
        self.parts.as_slice()
    }

    /// The number of the last part uploaded.
    pub fn part_number(&self) -> (r: i32)
        ensures
            r == self.spec_part_number(),
    {
        self.part_number
    }

    /// Buffer written bytes; whether the buffered bytes now fill a part,
    /// so that they are to be uploaded.
    pub fn write(&mut self, data: &[u8]) -> (part_due: bool)
        ensures
            final(self).spec_buffered() == old(self).spec_buffered() + data@,
            part_due == (final(self).spec_buffered().len() >= PART_SIZE),
            final(self).spec_upload_id() == old(self).spec_upload_id(),
            final(self).spec_part_number() == old(self).spec_part_number(),
            final(self).spec_parts() == old(self).spec_parts(),
            final(self).spec_completed() == old(self).spec_completed(),
    {
        push_all(&mut self.buffer, data);
        self.buffer.len() >= PART_SIZE
    }

    /// What uploading the buffered bytes takes next: nothing when nothing is
    /// buffered, else starting the multipart upload if it was not, else the
    /// next part.
    pub fn upload_step(&self) -> (r: UploadStep)
        requires
            self.spec_part_number() < i32::MAX,
        ensures
            r == if self.spec_buffered().len() == 0 {
                UploadStep::Idle
            } else if self.spec_upload_id() is None {
                UploadStep::CreateUpload
            } else {
                UploadStep::UploadPart((self.spec_part_number() + 1) as i32)
            },
    {
        if self.buffer.len() == 0 {
            UploadStep::Idle
        } else if self.upload_id.is_none() {
            UploadStep::CreateUpload
        } else {
            UploadStep::UploadPart(self.part_number + 1)
        }
    }

    /// The store started the multipart upload with this id.
    pub fn upload_started(&mut self, id: String)
        ensures
            final(self).spec_upload_id() == Some(id),
            final(self).spec_buffered() == old(self).spec_buffered(),
            final(self).spec_part_number() == old(self).spec_part_number(),
            final(self).spec_parts() == old(self).spec_parts(),
            final(self).spec_completed() == old(self).spec_completed(),
    {
        self.upload_id = Some(id);
    }

    /// The store took the buffered bytes as the next part, with this tag:
    /// the part is recorded and the buffer emptied.
    pub fn part_uploaded(&mut self, etag: String)
        requires
            old(self).spec_part_number() < i32::MAX,
        ensures
            final(self).spec_part_number() == old(self).spec_part_number() + 1,
            final(self).spec_parts() == old(self).spec_parts().push((final(self).spec_part_number(), etag)),
            final(self).spec_buffered() == Seq::<u8>::empty(),
            final(self).spec_upload_id() == old(self).spec_upload_id(),
            final(self).spec_completed() == old(self).spec_completed(),
    {
        self.part_number = self.part_number + 1;
        self.parts.push((self.part_number, etag));
        self.buffer.clear();
    }

    /// What flushing takes next: without a multipart upload, one object of
    /// the buffered bytes; with one, its last part if bytes are buffered,
    /// else its completion.
    pub fn flush_step(&self) -> (r: FlushStep)
        requires
            self.spec_part_number() < i32::MAX,
        ensures
            r == if self.spec_upload_id() is None {
                FlushStep::PutObject
            } else if self.spec_buffered().len() > 0 {
                FlushStep::UploadPart((self.spec_part_number() + 1) as i32)
            } else {
                FlushStep::Complete
            },
    {
        if self.upload_id.is_none() {
            FlushStep::PutObject
        } else if self.buffer.len() > 0 {
            FlushStep::UploadPart(self.part_number + 1)
        } else {
            FlushStep::Complete
        }
    }

    /// Hand out the multipart upload's id, to complete or abort it; the
    /// upload counts as ended from then on.
    pub fn take_upload_id(&mut self) -> (r: Option<String>)
        ensures
            r == old(self).spec_upload_id(),
            final(self).spec_upload_id() is None,
            final(self).spec_buffered() == old(self).spec_buffered(),
            final(self).spec_part_number() == old(self).spec_part_number(),
            final(self).spec_parts() == old(self).spec_parts(),
            final(self).spec_completed() == old(self).spec_completed(),
    {
        let mut id: Option<String> = None;
        std::mem::swap(&mut id, &mut self.upload_id);
        id
    }

    /// The store took the buffered bytes as one object.
    pub fn object_stored(&mut self)
        ensures
            final(self).spec_buffered() == Seq::<u8>::empty(),
            final(self).spec_completed(),
            final(self).spec_upload_id() == old(self).spec_upload_id(),
            final(self).spec_part_number() == old(self).spec_part_number(),
            final(self).spec_parts() == old(self).spec_parts(),
    {
        self.buffer.clear();
        self.completed = true;
    }

    /// The store completed the multipart upload.
    pub fn upload_completed(&mut self)
        ensures
            final(self).spec_completed(),
            final(self).spec_buffered() == old(self).spec_buffered(),
            final(self).spec_upload_id() == old(self).spec_upload_id(),
            final(self).spec_part_number() == old(self).spec_part_number(),
            final(self).spec_parts() == old(self).spec_parts(),
    {
        self.completed = true;
    }

    /// Everything was dropped: no bytes buffered, no parts, and nothing
    /// left to complete.
    pub fn discarded(&mut self)
        ensures
            final(self).spec_buffered() == Seq::<u8>::empty(),
            final(self).spec_parts() == Seq::<(i32, String)>::empty(),
            final(self).spec_completed(),
            final(self).spec_upload_id() == old(self).spec_upload_id(),
            final(self).spec_part_number() == old(self).spec_part_number(),
    {
        self.buffer.clear();
        self.parts.clear();
        self.completed = true;
    }

    /// Whether the upload was left unfinished: neither completed nor
    /// discarded, with an upload started or bytes buffered.
    pub fn unfinished(&self) -> (r: bool)
        ensures
            r == (!self.spec_completed() && (self.spec_upload_id() is Some || self.spec_buffered().len() > 0)),
    {
        !self.completed && (self.upload_id.is_some() || self.buffer.len() > 0)
    }
}

/// Reader of bytes fetched from the object store.
pub struct S3Reader {
    data: Vec<u8>,
    pos: usize,
}

impl S3Reader {
    #[verifier::type_invariant]
    spec fn inv(self) -> bool {
        self.pos <= self.data@.len()
    }

    pub fn new(data: Vec<u8>) -> (r: Self)
        ensures
            r.pending() == data@,
            r.reliable(),
    {
        let r = S3Reader { data, pos: 0 };
        proof {
            assert(r.data@.skip(0) =~= r.data@);
        }
        r
    }
}

impl Read for S3Reader {

    open spec fn copies(&self) -> bool {
        false
    }

    closed spec fn reliable(&self) -> bool {
        self.pos <= self.data@.len()
    }

    proof fn lemma_reliable_fits(&self) {
        assert(self.data@.len() == self.data.len());
    }
    closed spec fn pending(&self) -> Seq<u8> {
        self.data@.skip(self.pos as int)
    }

    open spec fn copy_origin(&self) -> (Seq<u8>, Seq<u8>) {
        (Seq::empty(), Seq::empty())
    }

    open spec fn faithful(&self) -> bool {
        true
    }

    fn read(&mut self, buf: &mut [u8]) -> (r: Result<usize, IoError>)
        ensures
            r is Ok,
    {
        proof {
            use_type_invariant(&*self);
        }
        let total = self.data.len();
        let left = total - self.pos;
        let n = if buf.len() < left {
            buf.len()
        } else {
            left
        };
        let mut i: usize = 0;
        while i < n
            invariant
                i <= n,
                n <= buf@.len(),
                self.pos + n <= self.data@.len(),
                self.data@.len() == total,
                buf@.len() == old(buf)@.len(),
                forall|j: int| 0 <= j < i ==> buf@[j] == self.data@[self.pos + j],
            decreases n - i,
        {
            buf[i] = self.data[self.pos + i];
            i = i + 1;
        }
        proof {
            assert(buf@.take(n as int) =~= self.data@.skip(self.pos as int).take(n as int));
            assert(self.data@.skip(self.pos as int).skip(n as int) =~= self.data@.skip(self.pos + n));
        }
        self.pos = self.pos + n;
        Ok(n)
    }

    fn read_exact(&mut self, buf: &mut [u8]) -> (r: Result<(), IoError>)
        ensures
            r is Ok <==> old(buf)@.len() <= old(self).pending().len(),
    {
        proof {
            use_type_invariant(&*self);
        }
        let total = self.data.len();
        let left = total - self.pos;
        if buf.len() > left {
            return Err(IoError::UnexpectedEof);
        }
        let n = buf.len();
        let mut i: usize = 0;
        while i < n
            invariant
                i <= n,
                n == buf@.len(),
                self.pos + n <= self.data@.len(),
                self.data@.len() == total,
                buf@.len() == old(buf)@.len(),
                forall|j: int| 0 <= j < i ==> buf@[j] == self.data@[self.pos + j],
            decreases n - i,
        {
            buf[i] = self.data[self.pos + i];
            i = i + 1;
        }
        proof {
            assert(buf@ =~= self.data@.skip(self.pos as int).take(n as int));
            assert(self.data@.skip(self.pos as int).skip(n as int) =~= self.data@.skip(self.pos + n));
        }
        self.pos = self.pos + n;
        Ok(())
    }
}

} // verus!
