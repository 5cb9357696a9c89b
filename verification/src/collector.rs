//! Collecting annotations into nested segments while a codestream is read.

use vstd::prelude::*;
use crate::model::{Annotation, Segment, SegmentKind, SegmentView, segment_view, segments_view, lemma_segments_view};

verus! {

/// The mathematical state of a collector: the annotations made outside any
/// segment, the innermost open segment, the completed top-level segments,
/// and the enclosing open segments, outermost first.
pub struct CollectorView {
    pub annotations: Seq<Annotation>,
    pub current: Option<SegmentView>,
    pub segments: Seq<SegmentView>,
    pub stack: Seq<SegmentView>,
}

/// Open segments are nested in the current one: there is an enclosing open
/// segment only while some segment is open.
pub open spec fn collector_wf(c: CollectorView) -> bool {
    c.stack.len() > 0 ==> c.current is Some
}

/// A segment just begun at bit `start_bit`.
pub open spec fn fresh_segment(kind: SegmentKind, start_bit: u64) -> SegmentView {
    SegmentView {
        kind,
        byte_range: ((start_bit / 8) as u64, 0),
        bit_range: (start_bit, 0),
        annotations: Seq::empty(),
        children: Seq::empty(),
    }
}

/// A segment closed at bit `end_bit`: its end bit, and the first byte after
/// it, are filled in.
pub open spec fn close_segment(s: SegmentView, end_bit: u64) -> SegmentView {
    SegmentView {
        kind: s.kind,
        byte_range: (s.byte_range.0, ((end_bit + 7) / 8) as u64),
        bit_range: (s.bit_range.0, end_bit),
        annotations: s.annotations,
        children: s.children,
    }
}

/// Recording an annotation: it goes to the open segment, if any, and to the
/// top-level list otherwise.
pub open spec fn spec_push(c: CollectorView, a: Annotation) -> CollectorView {
    match c.current {
        Some(s) => CollectorView {
            current: Some(SegmentView { annotations: s.annotations.push(a), ..s }),
            ..c
        },
        None => CollectorView { annotations: c.annotations.push(a), ..c },
    }
}

/// Beginning a segment: the open one, if any, becomes an enclosing segment.
pub open spec fn spec_begin(c: CollectorView, kind: SegmentKind, start_bit: u64) -> CollectorView {
    CollectorView {
        stack: match c.current {
            Some(s) => c.stack.push(s),
            None => c.stack,
        },
        current: Some(fresh_segment(kind, start_bit)),
        ..c
    }
}

/// Ending the open segment: closed at `end_bit`, it becomes the last child of
/// the innermost enclosing segment, which is open again, or the last
/// top-level segment when none encloses it.  Without an open segment
/// nothing changes.
pub open spec fn spec_end(c: CollectorView, end_bit: u64) -> CollectorView {
    match c.current {
        None => c,
        Some(s) => if c.stack.len() > 0 {
            CollectorView {
                current: Some(SegmentView {
                    children: c.stack.last().children.push(close_segment(s, end_bit)),
                    ..c.stack.last()
                }),
                stack: c.stack.drop_last(),
                ..c
            }
        } else {
            CollectorView {
                current: None,
                segments: c.segments.push(close_segment(s, end_bit)),
                ..c
            }
        },
    }
}

/// How many segments are still open.
pub open spec fn open_count(c: CollectorView) -> nat {
    c.stack.len() + if c.current is Some { 1nat } else { 0nat }
}

/// The top-level segments once every open segment has been ended at bit 0.
pub open spec fn spec_finish(c: CollectorView) -> Seq<SegmentView>
    decreases open_count(c),
{
    if c.current is Some {
        spec_finish(spec_end(c, 0))
    } else {
        c.segments
    }
}

/// Collector for annotations during parsing.
#[derive(Debug)]
pub struct AnnotationCollector {
    /// All annotations collected
    pub annotations: Vec<Annotation>,
    /// Current segment being built
    pub current_segment: Option<Segment>,
    /// Completed segments
    pub segments: Vec<Segment>,
    /// Segment stack for nesting: the enclosing open segments, outermost
    /// first; there is one only while a segment is open
    segment_stack: Vec<Segment>,
}

impl View for AnnotationCollector {
    type V = CollectorView;

    closed spec fn view(&self) -> CollectorView {
        CollectorView {
            annotations: self.annotations@,
            current: match self.current_segment {
                Some(s) => Some(segment_view(s)),
                None => None,
            },
            segments: segments_view(self.segments@),
            stack: segments_view(self.segment_stack@),
        }
    }
}

impl AnnotationCollector {
    /// An empty collector.
    pub fn new() -> (r: Self)
        ensures
            collector_wf(r@),
            r@.annotations.len() == 0,
            r@.current is None,
            r@.segments.len() == 0,
            r@.stack.len() == 0,
    {
        Self {
            annotations: Vec::new(),
            current_segment: None,
            segments: Vec::new(),
            segment_stack: Vec::new(),
        }
    }

    /// Push an annotation.
    pub fn push(&mut self, annotation: Annotation)
        ensures
            collector_wf(old(self)@) ==> collector_wf(final(self)@),
            final(self)@ == spec_push(old(self)@, annotation),
    {
        let ghost a = annotation;
        match self.current_segment.take() {
            Some(mut segment) => {
                segment.annotations.push(annotation);
                self.current_segment = Some(segment);
            },
            None => {
                self.annotations.push(annotation);
            },
        }
        assert(self@ =~= spec_push(old(self)@, a));
    }

    /// Start a new segment.
    pub fn begin_segment(&mut self, kind: SegmentKind, start_bit: u64)
        ensures
            collector_wf(old(self)@) ==> collector_wf(final(self)@),
            final(self)@ == spec_begin(old(self)@, kind, start_bit),
    {
        let ghost k = kind;
        let segment = Segment {
            kind,
            byte_range: (start_bit / 8, 0),
            bit_range: (start_bit, 0),
            annotations: Vec::new(),
            children: Vec::new(),
        };
        assert(segment_view(segment) =~= fresh_segment(k, start_bit));
        if let Some(current) = self.current_segment.take() {
            let ghost st = self.segment_stack@;
            self.segment_stack.push(current);
            assert(self.segment_stack@.drop_last() =~= st);
        }
        self.current_segment = Some(segment);
        assert(self@.stack =~= spec_begin(old(self)@, k, start_bit).stack);
        assert(self@ =~= spec_begin(old(self)@, k, start_bit));
    }

    /// End the current segment.
    pub fn end_segment(&mut self, end_bit: u64)
        requires
            old(self)@.current is Some ==> end_bit <= u64::MAX - 7,
        ensures
            collector_wf(old(self)@) ==> collector_wf(final(self)@),
            final(self)@ == spec_end(old(self)@, end_bit),
    {
        if let Some(mut segment) = self.current_segment.take() {
            segment.bit_range.1 = end_bit;
            segment.byte_range.1 = (end_bit + 7) / 8;
            let ghost closed = segment_view(segment);
            assert(closed == close_segment(old(self)@.current->0, end_bit));
            if let Some(mut parent) = self.segment_stack.pop() {
                let ghost p = parent;
                parent.children.push(segment);
                assert(parent.children@.drop_last() =~= p.children@);
                assert(segments_view(parent.children@) =~= segments_view(p.children@).push(closed));
                self.current_segment = Some(parent);
                assert(self.segment_stack@ =~= old(self).segment_stack@.drop_last());
                assert(segments_view(old(self).segment_stack@).last() == segment_view(p)) by {
                    lemma_segments_view(old(self).segment_stack@);
                }
                assert(segments_view(self.segment_stack@) =~= segments_view(old(self).segment_stack@).drop_last());
                assert(self@ =~= spec_end(old(self)@, end_bit));
            } else {
                self.segments.push(segment);
                assert(self.segments@.drop_last() =~= old(self).segments@);
                assert(self@ =~= spec_end(old(self)@, end_bit));
            }
        }
    }

    /// Get all segments.
    pub fn into_segments(self) -> (r: Vec<Segment>)
        ensures
            segments_view(r@) == spec_finish(self@),
    {
        let ghost start = self@;
        let mut c = self;
        // Close any open segments
        while c.current_segment.is_some()
            invariant
                spec_finish(c@) == spec_finish(start),
            decreases open_count(c@),
        {
            let ghost before = c@;
            c.end_segment(0); // Best effort
            assert(open_count(c@) < open_count(before));
        }
        assert(c@.current is None);
        c.segments
    }
}

impl Default for AnnotationCollector {
    fn default() -> (r: Self)
        ensures
            collector_wf(r@),
            r@.annotations.len() == 0,
            r@.current is None,
            r@.segments.len() == 0,
            r@.stack.len() == 0,
    {
        Self::new()
    }
}

/// Every operation keeps open segments nested: an enclosing open segment
/// exists only while some segment is open.
pub proof fn lemma_operations_keep_wf(c: CollectorView, a: Annotation, kind: SegmentKind, start_bit: u64, end_bit: u64)
    requires
        collector_wf(c),
    ensures
        collector_wf(spec_push(c, a)),
        collector_wf(spec_begin(c, kind, start_bit)),
        collector_wf(spec_end(c, end_bit)),
{
}

/// A segment begun and ended with nothing read in between is recorded once,
/// closed and empty, as the last child of the segment that was open before
/// (or as the last top-level segment), and nothing else changes.
pub proof fn lemma_begin_then_end(c: CollectorView, kind: SegmentKind, start_bit: u64, end_bit: u64)
    requires
        collector_wf(c),
    ensures
        spec_end(spec_begin(c, kind, start_bit), end_bit) == match c.current {
            Some(p) => CollectorView {
                current: Some(SegmentView {
                    children: p.children.push(close_segment(fresh_segment(kind, start_bit), end_bit)),
                    ..p
                }),
                ..c
            },
            None => CollectorView {
                segments: c.segments.push(close_segment(fresh_segment(kind, start_bit), end_bit)),
                ..c
            },
        },
{
    let b = spec_begin(c, kind, start_bit);
    if let Some(p) = c.current {
        assert(b.stack.drop_last() =~= c.stack);
    }
}

/// An annotation recorded inside a segment lands in that segment's
/// annotations, in order, and nowhere else.
pub proof fn lemma_push_inside_segment(c: CollectorView, kind: SegmentKind, start_bit: u64, a: Annotation)
    ensures
        spec_push(spec_begin(c, kind, start_bit), a).current == Some(SegmentView {
            annotations: seq![a],
            ..fresh_segment(kind, start_bit)
        }),
        spec_push(spec_begin(c, kind, start_bit), a).annotations == c.annotations,
        spec_push(spec_begin(c, kind, start_bit), a).segments == c.segments,
{
    assert(Seq::<Annotation>::empty().push(a) =~= seq![a]);
}

/// Finishing keeps the completed segments, in order, and adds exactly one
/// top-level segment when some segment is still open (the outermost one,
/// with the inner open segments nested in it), none otherwise.
pub proof fn lemma_finish_keeps_segments(c: CollectorView)
    ensures
        spec_finish(c).len() == c.segments.len() + if c.current is Some { 1nat } else { 0nat },
        spec_finish(c).take(c.segments.len() as int) == c.segments,
    decreases open_count(c),
{
    if c.current is Some {
        let e = spec_end(c, 0);
        lemma_finish_keeps_segments(e);
        if c.stack.len() > 0 {
            assert(e.segments == c.segments);
        } else {
            assert(e.segments.take(c.segments.len() as int) =~= c.segments);
            assert(spec_finish(e) =~= e.segments);
            assert(spec_finish(c).take(c.segments.len() as int) =~= c.segments);
        }
    } else {
        assert(c.segments.take(c.segments.len() as int) =~= c.segments);
    }
}

/// Recording the annotations `anns`, in order.
pub open spec fn push_all(c: CollectorView, anns: Seq<Annotation>) -> CollectorView
    decreases anns.len(),
{
    if anns.len() == 0 {
        c
    } else {
        spec_push(push_all(c, anns.drop_last()), anns.last())
    }
}

/// Annotations recorded while a segment is open are appended to it, in
/// order, and nothing else changes.
pub proof fn lemma_push_all_into_open(c: CollectorView, anns: Seq<Annotation>)
    requires
        c.current is Some,
    ensures
        push_all(c, anns) == (CollectorView {
            current: Some(SegmentView { annotations: c.current->0.annotations + anns, ..c.current->0 }),
            ..c
        }),
    decreases anns.len(),
{
    if anns.len() == 0 {
        assert(c.current->0.annotations + anns =~= c.current->0.annotations);
        assert(SegmentView { annotations: c.current->0.annotations, ..c.current->0 } == c.current->0);
    } else {
        lemma_push_all_into_open(c, anns.drop_last());
        assert(c.current->0.annotations + anns.drop_last() + seq![anns.last()] =~= c.current->0.annotations + anns);
        assert((c.current->0.annotations + anns.drop_last()).push(anns.last()) =~= c.current->0.annotations + anns);
    }
}

/// A segment begun at bit `start_bit`, filled with the annotations `anns`
/// and ended at bit `end_bit`, with no segment open before: the completed
/// segments gain, last, one segment of that kind, spanning those bits and
/// the bytes that hold them, holding exactly those annotations and no
/// children; nothing else changes and no segment stays open.  (Every
/// collector is well formed: see `lemma_operations_keep_wf`.)
pub proof fn lemma_segment_of_reads(c: CollectorView, kind: SegmentKind, start_bit: u64, anns: Seq<Annotation>, end_bit: u64)
    requires
        collector_wf(c),
        c.current is None,
    ensures
        spec_end(push_all(spec_begin(c, kind, start_bit), anns), end_bit) == (CollectorView {
            segments: c.segments.push(SegmentView {
                kind,
                byte_range: ((start_bit / 8) as u64, ((end_bit + 7) / 8) as u64),
                bit_range: (start_bit, end_bit),
                annotations: anns,
                children: Seq::empty(),
            }),
            ..c
        }),
{
    let b = spec_begin(c, kind, start_bit);
    lemma_push_all_into_open(b, anns);
    assert(Seq::<Annotation>::empty() + anns =~= anns);
}

/// The same inside an open segment: the new segment becomes its last
/// child, and that segment is open again afterwards.
pub proof fn lemma_child_segment_of_reads(c: CollectorView, kind: SegmentKind, start_bit: u64, anns: Seq<Annotation>, end_bit: u64)
    requires
        c.current is Some,
    ensures
        spec_end(push_all(spec_begin(c, kind, start_bit), anns), end_bit) == (CollectorView {
            current: Some(SegmentView {
                children: c.current->0.children.push(SegmentView {
                    kind,
                    byte_range: ((start_bit / 8) as u64, ((end_bit + 7) / 8) as u64),
                    bit_range: (start_bit, end_bit),
                    annotations: anns,
                    children: Seq::empty(),
                }),
                ..c.current->0
            }),
            ..c
        }),
{
    let b = spec_begin(c, kind, start_bit);
    lemma_push_all_into_open(b, anns);
    assert(Seq::<Annotation>::empty() + anns =~= anns);
    assert(b.stack.drop_last() =~= c.stack);
}

} // verus!
