//! The abstract LED strip the machine drives: a pixel buffer with a commit
//! point, modelled as the sequence of its colours plus the history of
//! committed frames, and an in-memory implementation that can capture each
//! committed frame for inspection.

use vstd::prelude::*;

verus! {

/// One pixel's colour.
#[derive(Clone, Copy, Debug, PartialEq, Eq, Structural)]
pub struct Color {
    pub r: u8,
    pub g: u8,
    pub b: u8,
}

/// The mathematical state of a strip: its current colours and the frames it
/// has committed, oldest first.
pub struct StripModel {
    pub colors: Seq<Color>,
    pub frames: Seq<Seq<Color>>,
}

/// The pixel-sink contract the machine drives. Writes and reads stay within
/// the strip's length; `blit` is the commit point, appending the current
/// colours to the frame history.
pub trait Strip: Sized {
    spec fn model(&self) -> StripModel;

    /// The implementation's own well-formedness; constructors establish it
    /// and every operation preserves it.
    spec fn wf(&self) -> bool;

    fn length(&self) -> (r: u32)
        requires
            self.wf(),
        ensures
            r as int == self.model().colors.len(),
    ;

    fn set_pixel(&mut self, idx: u32, r: u8, g: u8, b: u8)
        requires
            old(self).wf(),
            (idx as int) < old(self).model().colors.len(),
        ensures
            final(self).wf(),
            final(self).model().colors == old(self).model().colors.update(
                idx as int,
                (Color { r, g, b }),
            ),
            final(self).model().frames == old(self).model().frames,
    ;

    fn get_pixel(&self, idx: u32) -> (c: Color)
        requires
            self.wf(),
            (idx as int) < self.model().colors.len(),
        ensures
            c == self.model().colors[idx as int],
    ;

    fn blit(&mut self)
        requires
            old(self).wf(),
        ensures
            final(self).wf(),
            final(self).model().colors == old(self).model().colors,
            final(self).model().frames == old(self).model().frames.push(
                old(self).model().colors,
            ),
    ;
}

/// Paint the whole strip one colour and commit the frame.
pub fn set_all_pixels_to<S: Strip>(strip: &mut S, r: u8, g: u8, b: u8)
    requires
        old(strip).wf(),
    ensures
        final(strip).wf(),
        final(strip).model().colors == Seq::new(
            old(strip).model().colors.len(),
            |i: int| (Color { r, g, b }),
        ),
        final(strip).model().frames == old(strip).model().frames.push(
            Seq::new(old(strip).model().colors.len(), |i: int| (Color { r, g, b })),
        ),
{
    let n = strip.length();
    let mut i: u32 = 0;
    while i < n
        invariant
            strip.wf(),
            n as int == strip.model().colors.len(),
            i <= n,
            strip.model().frames == old(strip).model().frames,
            strip.model().colors.len() == old(strip).model().colors.len(),
            forall|t: int|
                0 <= t < i ==> strip.model().colors[t] == (Color { r, g, b }),
            forall|t: int|
                i <= t < n ==> strip.model().colors[t] == old(strip).model().colors[t],
        decreases n - i,
    {
        strip.set_pixel(i, r, g, b);
        i = i + 1;
    }
    proof {
        assert(strip.model().colors =~= Seq::new(
            old(strip).model().colors.len(),
            |t: int| (Color { r, g, b }),
        ));
    }
    strip.blit();
}

/// The colours encoded in a flat byte buffer, three bytes per pixel.
pub open spec fn colors_of(data: Seq<u8>, len: nat) -> Seq<Color> {
    Seq::new(len, |i: int| (Color { r: data[3 * i], g: data[3 * i + 1], b: data[3 * i + 2] }))
}

/// An in-memory strip. When tracing is on, every committed frame is captured
/// as a flat byte string for later inspection.
pub struct DummyStrip {
    trace: bool,
    length: u32,
    data: Vec<u8>,
    captured: Vec<Vec<u8>>,
    frames: Ghost<Seq<Seq<Color>>>,
}

impl DummyStrip {
    /// Whether this strip captures each committed frame. No operation of the
    /// strip changes it.
    pub closed spec fn tracing(&self) -> bool {
        self.trace
    }

    pub fn new(length: u32, trace: bool) -> (r: DummyStrip)
        requires
            3 * (length as int) <= usize::MAX,
        ensures
            r.wf(),
            r.tracing() == trace,
            r.model().colors == Seq::new(length as nat, |i: int| (Color { r: 0, g: 0, b: 0 })),
            r.model().frames == Seq::<Seq<Color>>::empty(),
    {
        let data: Vec<u8> = vec![0u8; (length as usize) * 3];
        let r = DummyStrip { trace, length, data, captured: Vec::new(), frames: Ghost(Seq::empty()) };
        proof {
            assert(r.model().colors =~= Seq::new(
                length as nat,
                |i: int| (Color { r: 0, g: 0, b: 0 }),
            ));
        }
        r
    }

    /// The frames committed so far, three bytes per pixel, oldest first: on
    /// a tracing strip, one captured byte string per committed frame, each
    /// carrying exactly that frame's colours.
    pub fn captured(&self) -> (r: &Vec<Vec<u8>>)
        requires
            self.wf(),
        ensures
            self.tracing() ==> r@.len() == self.model().frames.len(),
            !self.tracing() ==> r@.len() == 0,
            forall|k: int|
                0 <= k < r@.len() ==> #[trigger] self.model().frames[k] == colors_of(
                    r@[k]@,
                    self.model().colors.len(),
                ),
    {
        &self.captured
    }
}

impl Strip for DummyStrip {
    closed spec fn model(&self) -> StripModel {
        StripModel { colors: colors_of(self.data@, self.length as nat), frames: self.frames@ }
    }

    closed spec fn wf(&self) -> bool {
        &&& self.data@.len() == 3 * (self.length as int)
        &&& self.trace ==> {
            &&& self.captured@.len() == self.frames@.len()
            &&& forall|k: int|
                0 <= k < self.captured@.len() ==> #[trigger] self.frames@[k] == colors_of(
                    self.captured@[k]@,
                    self.length as nat,
                )
        }
        &&& !self.trace ==> self.captured@.len() == 0
    }

    fn length(&self) -> (r: u32) {
        self.length
    }

    fn set_pixel(&mut self, idx: u32, r: u8, g: u8, b: u8) {
        let dlen = self.data.len();
        proof {
            assert(3 * (idx as int) + 2 < dlen as int);
        }
        let base = (idx as usize) * 3;
        self.data[base] = r;
        self.data[base + 1] = g;
        self.data[base + 2] = b;
        proof {
            assert(self.model().colors =~= old(self).model().colors.update(
                idx as int,
                (Color { r, g, b }),
            ));
        }
    }

    fn get_pixel(&self, idx: u32) -> (c: Color) {
        let dlen = self.data.len();
        proof {
            assert(3 * (idx as int) + 2 < dlen as int);
        }
        let base = (idx as usize) * 3;
        Color { r: self.data[base], g: self.data[base + 1], b: self.data[base + 2] }
    }

    fn blit(&mut self) {
        proof {
            self.frames@ = self.frames@.push(colors_of(self.data@, self.length as nat));
        }
        if self.trace {
            let snapshot = self.data.clone();
            self.captured.push(snapshot);
        }
    }
}

} // verus!
