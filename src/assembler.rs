use vstd::prelude::*;

verus! {

/// First byte of the JPEG end-of-image marker.
pub const EOI_FIRST: u8 = 0xFF;

/// Second byte of the JPEG end-of-image marker.
pub const EOI_SECOND: u8 = 0xD9;

/// `s` ends with the two-byte end-of-image marker `FF D9`.
pub open spec fn ends_with_marker(s: Seq<u8>) -> bool {
    s.len() >= 2 && s[s.len() - 2] == EOI_FIRST && s[s.len() - 1] == EOI_SECOND
}

/// Appending one byte to the accumulation buffer `buf`: the new buffer, and the
/// frame that the byte completed, if any.
pub open spec fn push_byte(buf: Seq<u8>, b: u8) -> (Seq<u8>, Option<Seq<u8>>) {
    let s = buf.push(b);
    if ends_with_marker(s) {
        (Seq::empty(), Some(s))
    } else {
        (s, None)
    }
}

/// Appending `bytes` one at a time to the buffer `buf`, with the suffix check after
/// each: the frames completed, in order, and the bytes left pending.
pub open spec fn scan(buf: Seq<u8>, bytes: Seq<u8>) -> (Seq<Seq<u8>>, Seq<u8>)
    decreases bytes.len(),
{
    if bytes.len() == 0 {
        (Seq::empty(), buf)
    } else {
        let (frames, b) = scan(buf, bytes.drop_last());
        let (next, out) = push_byte(b, bytes.last());
        match out {
            Some(f) => (frames.push(f), next),
            None => (frames, next),
        }
    }
}

/// Feeding `chunks` in order, chunk after chunk, to an assembler whose buffer holds
/// `buf`: the frames emitted, in order, and the bytes left pending.
pub open spec fn assemble(buf: Seq<u8>, chunks: Seq<Seq<u8>>) -> (Seq<Seq<u8>>, Seq<u8>)
    decreases chunks.len(),
{
    if chunks.len() == 0 {
        (Seq::empty(), buf)
    } else {
        let (f1, b) = assemble(buf, chunks.drop_last());
        let (f2, rest) = scan(b, chunks.last());
        (f1 + f2, rest)
    }
}

/// `img` is one complete JPEG image as the capture stream carries it: it ends with the
/// end-of-image marker, and no shorter prefix of it does.
pub open spec fn is_image(img: Seq<u8>) -> bool {
    &&& ends_with_marker(img)
    &&& forall|p: int| 0 <= p < img.len() ==> !ends_with_marker(#[trigger] img.take(p))
}

/// Scanning two runs of bytes one after the other is scanning the second from the
/// buffer that the first one left.
pub proof fn lemma_scan_concat(buf: Seq<u8>, a: Seq<u8>, b: Seq<u8>)
    ensures
        scan(buf, a + b) == ({
            let (f1, r1) = scan(buf, a);
            let (f2, r2) = scan(r1, b);
            (f1 + f2, r2)
        }),
    decreases b.len(),
{
    let (f1, r1) = scan(buf, a);
    if b.len() == 0 {
        assert(a + b =~= a);
        assert(f1 + Seq::<Seq<u8>>::empty() =~= f1);
    } else {
        assert((a + b).drop_last() =~= a + b.drop_last());
        assert((a + b).last() == b.last());
        lemma_scan_concat(buf, a, b.drop_last());
        let (f2, r2) = scan(r1, b.drop_last());
        match push_byte(r2, b.last()).1 {
            Some(f) => {
                assert((f1 + f2).push(f) =~= f1 + f2.push(f));
            },
            None => {},
        }
    }
}

/// Every frame that a scan emits ends with the marker and is no longer than the bytes
/// it started from and was given, and the pending buffer never ends with a marker.
pub proof fn lemma_scan_bounds(buf: Seq<u8>, bytes: Seq<u8>)
    requires
        !ends_with_marker(buf),
    ensures
        !ends_with_marker(scan(buf, bytes).1),
        scan(buf, bytes).1.len() <= buf.len() + bytes.len(),
        forall|i: int|
            0 <= i < scan(buf, bytes).0.len() ==> {
                &&& ends_with_marker(#[trigger] scan(buf, bytes).0[i])
                &&& scan(buf, bytes).0[i].len() <= buf.len() + bytes.len()
            },
    decreases bytes.len(),
{
    if bytes.len() > 0 {
        lemma_scan_bounds(buf, bytes.drop_last());
        assert(!ends_with_marker(Seq::<u8>::empty()));
    }
}

/// The first `k` bytes of an image, scanned from an empty buffer, complete no frame
/// and stay pending; the whole image completes exactly one frame, the image itself.
proof fn lemma_scan_image(img: Seq<u8>, k: int)
    requires
        is_image(img),
        0 <= k <= img.len(),
    ensures
        k < img.len() ==> scan(Seq::empty(), img.take(k)) == (Seq::<Seq<u8>>::empty(), img.take(k)),
        k == img.len() ==> scan(Seq::empty(), img) == (seq![img], Seq::<u8>::empty()),
    decreases k,
{
    if k == 0 {
        assert(img.take(0) =~= Seq::<u8>::empty());
    } else {
        lemma_scan_image(img, k - 1);
        assert(img.take(k).drop_last() =~= img.take(k - 1));
        assert(img.take(k - 1).push(img[k - 1]) =~= img.take(k));
        if k == img.len() {
            assert(img.take(k) =~= img);
            assert(Seq::<Seq<u8>>::empty().push(img) =~= seq![img]);
        }
    }
}

/// Feeding chunks one after another is scanning their concatenation: how the stream
/// is cut into reads does not change the frames or what is left pending.
pub proof fn lemma_chunking_irrelevant(buf: Seq<u8>, chunks: Seq<Seq<u8>>)
    ensures
        assemble(buf, chunks) == scan(buf, chunks.flatten()),
    decreases chunks.len(),
{
    chunks.lemma_flatten_and_flatten_alt_are_equivalent();
    if chunks.len() == 0 {
        assert(Seq::<Seq<u8>>::empty() + Seq::<Seq<u8>>::empty() =~= Seq::<Seq<u8>>::empty());
    } else {
        chunks.drop_last().lemma_flatten_and_flatten_alt_are_equivalent();
        lemma_chunking_irrelevant(buf, chunks.drop_last());
        lemma_scan_concat(buf, chunks.drop_last().flatten(), chunks.last());
    }
}

/// A stream made of whole images, cut into reads of any sizes (one byte, a read that
/// splits a marker, a read that spans several images), yields each image as one
/// frame, byte for byte and in order, and leaves nothing pending.
pub proof fn lemma_frames_are_images(images: Seq<Seq<u8>>, chunks: Seq<Seq<u8>>)
    requires
        forall|i: int| 0 <= i < images.len() ==> is_image(#[trigger] images[i]),
        chunks.flatten() == images.flatten(),
    ensures
        assemble(Seq::empty(), chunks) == (images, Seq::<u8>::empty()),
{
    lemma_chunking_irrelevant(Seq::empty(), chunks);
    lemma_scan_images(images);
}

proof fn lemma_scan_images(images: Seq<Seq<u8>>)
    requires
        forall|i: int| 0 <= i < images.len() ==> is_image(#[trigger] images[i]),
    ensures
        scan(Seq::empty(), images.flatten()) == (images, Seq::<u8>::empty()),
    decreases images.len(),
{
    images.lemma_flatten_and_flatten_alt_are_equivalent();
    if images.len() == 0 {
        assert(images =~= Seq::<Seq<u8>>::empty());
    } else {
        let init = images.drop_last();
        let img = images.last();
        init.lemma_flatten_and_flatten_alt_are_equivalent();
        assert forall|i: int| 0 <= i < init.len() implies is_image(#[trigger] init[i]) by {
            assert(is_image(images[i]));
        }
        lemma_scan_images(init);
        lemma_scan_concat(Seq::empty(), init.flatten(), img);
        lemma_scan_image(img, img.len() as int);
        assert(init + seq![img] =~= images);
    }
}

/// Splits a raw capture stream into frames: bytes accumulate until the buffer's tail
/// is an end-of-image marker, and the whole buffer is then one frame.
pub struct FrameAssembler {
    buffer: Vec<u8>,
}

impl View for FrameAssembler {
    type V = Seq<u8>;

    /// The bytes of the frame that is being received.
    closed spec fn view(&self) -> Seq<u8> {
        self.buffer@
    }
}

/// The frames handed out, as byte sequences.
pub open spec fn frames_view(frames: Seq<Vec<u8>>) -> Seq<Seq<u8>> {
    frames.map_values(|f: Vec<u8>| f@)
}

impl FrameAssembler {
    /// A pending buffer never ends with a marker: such a buffer is emitted at once.
    pub open spec fn wf(&self) -> bool {
        !ends_with_marker(self@)
    }

    /// An assembler with an empty buffer.
    pub fn new() -> (r: FrameAssembler)
        ensures
            r.wf(),
            r@ == Seq::<u8>::empty(),
    {
        FrameAssembler { buffer: Vec::new() }
    }

    /// Number of bytes of the frame that is being received.
    pub fn pending_len(&self) -> (r: usize)
        ensures
            r == self@.len(),
    {
        self.buffer.len()
    }

    /// Drops the bytes of a partial frame.
    pub fn reset(&mut self)
        ensures
            final(self).wf(),
            final(self)@ == Seq::<u8>::empty(),
    {
        self.buffer.clear();
    }

    /// Appends one chunk read from the capture stream, byte by byte. Whenever the
    /// buffer then ends with the end-of-image marker, its whole contents are one frame
    /// and the buffer becomes empty. Returns the frames completed, in order.
    pub fn push_chunk(&mut self, chunk: &[u8]) -> (r: Vec<Vec<u8>>)
        requires
            old(self).wf(),
            old(self)@.len() + chunk@.len() <= usize::MAX,
        ensures
            final(self).wf(),
            (frames_view(r@), final(self)@) == scan(old(self)@, chunk@),
    {
        let ghost start = self@;
        let mut frames: Vec<Vec<u8>> = Vec::new();
        let mut i: usize = 0;
        proof {
            assert(chunk@.take(0) =~= Seq::<u8>::empty());
            assert(frames_view(frames@) =~= Seq::<Seq<u8>>::empty());
        }
        while i < chunk.len()
            invariant
                i <= chunk@.len(),
                start.len() + chunk@.len() <= usize::MAX,
                self.buffer@.len() <= start.len() + i,
                !ends_with_marker(self.buffer@),
                (frames_view(frames@), self.buffer@) == scan(start, chunk@.take(i as int)),
            decreases chunk@.len() - i,
        {
            let ghost before = frames@;
            self.buffer.push(chunk[i]);
            let n = self.buffer.len();
            assert(chunk@.take(i + 1).drop_last() =~= chunk@.take(i as int));
            assert(chunk@.take(i + 1).last() == chunk@[i as int]);
            if n >= 2 && self.buffer[n - 2] == EOI_FIRST && self.buffer[n - 1] == EOI_SECOND {
                let mut frame: Vec<u8> = Vec::new();
                std::mem::swap(&mut frame, &mut self.buffer);
                frames.push(frame);
                assert(self.buffer@ =~= Seq::<u8>::empty());
                assert(frames_view(frames@) =~= frames_view(before).push(frame@));
            }
            i += 1;
        }
        assert(chunk@.take(i as int) =~= chunk@);
        frames
    }
}

} // verus!
