use vstd::prelude::*;

verus! {

/// A line drawn with the pointer: how it is drawn (`style`: colour and
/// width) and the points it passes through, in the order they came.
pub struct Stroke<S, P> {
    pub style: S,
    pub points: Vec<P>,
}

/// A stroke seen as its style and the sequence of its points.
pub type StrokeView<S, P> = (S, Seq<P>);

/// A canvas seen as its finished strokes, oldest first, and the stroke
/// being drawn, if any.
pub type CanvasView<S, P> = (Seq<StrokeView<S, P>>, Option<StrokeView<S, P>>);

impl<S, P> View for Stroke<S, P> {
    type V = StrokeView<S, P>;

    open spec fn view(&self) -> StrokeView<S, P> {
        (self.style, self.points@)
    }
}

/// The strokes of the overlay: those finished and the one the pointer is
/// drawing.
pub struct Canvas<S, P> {
    strokes: Vec<Stroke<S, P>>,
    current: Option<Stroke<S, P>>,
}

/// The views of a sequence of strokes.
pub open spec fn stroke_views<S, P>(strokes: Seq<Stroke<S, P>>) -> Seq<StrokeView<S, P>> {
    strokes.map_values(|st: Stroke<S, P>| st@)
}

impl<S, P> View for Canvas<S, P> {
    type V = CanvasView<S, P>;

    closed spec fn view(&self) -> CanvasView<S, P> {
        (
            stroke_views(self.strokes@),
            match self.current {
                Some(st) => Some(st@),
                None => None,
            },
        )
    }
}

/// A stroke is drawn only when it has at least two points.
pub open spec fn is_drawable<S, P>(st: StrokeView<S, P>) -> bool {
    st.1.len() >= 2
}

/// Pressing the pointer starts a new stroke at `start`; a stroke that was
/// being drawn is dropped.
pub open spec fn after_begin<S, P>(c: CanvasView<S, P>, style: S, start: P) -> CanvasView<S, P> {
    (c.0, Some((style, seq![start])))
}

/// Moving the pointer adds a point to the stroke being drawn, if there is one.
pub open spec fn after_extend<S, P>(c: CanvasView<S, P>, p: P) -> CanvasView<S, P> {
    match c.1 {
        Some(st) => (c.0, Some((st.0, st.1.push(p)))),
        None => c,
    }
}

/// Releasing the pointer keeps the stroke being drawn if it has more than
/// one point, and ends it either way.
pub open spec fn after_end<S, P>(c: CanvasView<S, P>) -> CanvasView<S, P> {
    match c.1 {
        Some(st) => if st.1.len() > 1 {
            (c.0.push(st), None)
        } else {
            (c.0, None)
        },
        None => (c.0, None),
    }
}

/// Clearing takes away every stroke, the one being drawn too.
pub open spec fn after_clear<S, P>(c: CanvasView<S, P>) -> CanvasView<S, P> {
    (Seq::empty(), None)
}

/// The strokes in the order they are painted, the one being drawn last:
/// those with at least two points.
pub open spec fn painted<S, P>(c: CanvasView<S, P>) -> Seq<StrokeView<S, P>> {
    let all = match c.1 {
        Some(st) => c.0.push(st),
        None => c.0,
    };
    all.filter(drawable_test())
}

/// `is_drawable`, as a value that `filter` takes.
pub open spec fn drawable_test<S, P>() -> spec_fn(StrokeView<S, P>) -> bool {
    |st: StrokeView<S, P>| is_drawable(st)
}

/// Every finished stroke has at least two points.
pub open spec fn finished_strokes_drawable<S, P>(c: CanvasView<S, P>) -> bool {
    forall|i: int| 0 <= i < c.0.len() ==> is_drawable(#[trigger] c.0[i])
}

impl<S, P> Canvas<S, P> {
    /// An empty canvas.
    pub fn new() -> (c: Self)
        ensures
            c@.0 == Seq::<StrokeView<S, P>>::empty(),
            c@.1 is None,
    {
        let c = Canvas { strokes: Vec::new(), current: None };
        assert(c@.0 =~= Seq::<StrokeView<S, P>>::empty());
        c
    }

    /// Starts a stroke of the given style at `start`.
    pub fn begin_stroke(&mut self, style: S, start: P)
        ensures
            final(self)@ == after_begin(old(self)@, style, start),
    {
        let mut points = Vec::new();
        points.push(start);
        self.current = Some(Stroke { style, points });
        assert(final(self)@.1 == Some((style, seq![start])));
    }

    /// Adds `p` to the stroke being drawn.
    pub fn extend_stroke(&mut self, p: P)
        ensures
            final(self)@ == after_extend(old(self)@, p),
    {
        match self.current.take() {
            Some(st) => {
                let mut st = st;
                st.points.push(p);
                self.current = Some(st);
            },
            None => {},
        }
    }

    /// Ends the stroke being drawn, keeping it if it has more than one point.
    pub fn end_stroke(&mut self)
        ensures
            final(self)@ == after_end(old(self)@),
    {
        let ghost before = self.strokes@;
        match self.current.take() {
            Some(st) => {
                if st.points.len() > 1 {
                    let ghost v = st@;
                    self.strokes.push(st);
                    assert(stroke_views(self.strokes@) =~= stroke_views(before).push(v));
                }
            },
            None => {},
        }
    }

    /// Takes away every stroke.
    pub fn clear(&mut self)
        ensures
            final(self)@ == after_clear(old(self)@),
    {
        self.strokes.clear();
        self.current = None;
        assert(stroke_views(self.strokes@) =~= Seq::<StrokeView<S, P>>::empty());
    }

    /// The finished strokes, oldest first.
    pub fn strokes(&self) -> (r: &Vec<Stroke<S, P>>)
        ensures
            stroke_views(r@) == self@.0,
    {
        &self.strokes
    }

    /// The stroke being drawn, if any.
    pub fn current(&self) -> (r: Option<&Stroke<S, P>>)
        ensures
            match r {
                Some(st) => self@.1 == Some(st@),
                None => self@.1 is None,
            },
    {
        match &self.current {
            Some(st) => Some(st),
            None => None,
        }
    }

    /// The strokes to paint, in painting order.
    pub fn painted_strokes(&self) -> (r: Vec<&Stroke<S, P>>)
        ensures
            r@.map_values(|st: &Stroke<S, P>| st@) == painted(self@),
    {
        let ghost all = match self@.1 {
            Some(st) => self@.0.push(st),
            None => self@.0,
        };
        let mut r: Vec<&Stroke<S, P>> = Vec::new();
        let n = self.strokes.len();
        let mut i: usize = 0;
        while i < n
            invariant
                n == self.strokes@.len(),
                i <= n,
                all.len() >= n,
                forall|k: int| 0 <= k < n ==> #[trigger] all[k] == self.strokes@[k]@,
                r@.map_values(|st: &Stroke<S, P>| st@) == all.take(i as int).filter(drawable_test()),
            decreases n - i,
        {
            let st = &self.strokes[i];
            let ghost before = r@;
            proof {
                reveal_with_fuel(Seq::<_>::filter, 1);
                assert(all.take(i + 1).drop_last() =~= all.take(i as int));
                assert(all.take(i + 1).last() == st@);
            }
            if st.points.len() >= 2 {
                r.push(st);
                assert(r@.map_values(|st: &Stroke<S, P>| st@) =~= before.map_values(
                    |st: &Stroke<S, P>| st@,
                ).push(st@));
            }
            assert(r@.map_values(|st: &Stroke<S, P>| st@) =~= all.take(i + 1).filter(drawable_test())) by {
                reveal_with_fuel(Seq::<_>::filter, 1);
            }
            i = i + 1;
        }
        match &self.current {
            Some(st) => {
                let ghost before = r@;
                proof {
                    reveal_with_fuel(Seq::<_>::filter, 1);
                    assert(all.take(n + 1) =~= all);
                    assert(all.take(n + 1).drop_last() =~= all.take(n as int));
                    assert(all.last() == st@);
                }
                if st.points.len() >= 2 {
                    r.push(st);
                    assert(r@.map_values(|st: &Stroke<S, P>| st@) =~= before.map_values(
                        |st: &Stroke<S, P>| st@,
                    ).push(st@));
                }
                assert(r@.map_values(|st: &Stroke<S, P>| st@) =~= all.filter(drawable_test())) by {
                    reveal_with_fuel(Seq::<_>::filter, 1);
                    assert(all.take(n + 1) =~= all);
                }
            },
            None => {
                assert(all.take(n as int) =~= all);
            },
        }
        r
    }
}

/// A new canvas has no finished stroke with fewer than two points, and no
/// operation of the canvas ever leaves one there.
pub proof fn lemma_finished_strokes_stay_drawable<S, P>(c: CanvasView<S, P>, style: S, p: P)
    requires
        finished_strokes_drawable(c),
    ensures
        finished_strokes_drawable((Seq::<StrokeView<S, P>>::empty(), None::<StrokeView<S, P>>)),
        finished_strokes_drawable(after_begin(c, style, p)),
        finished_strokes_drawable(after_extend(c, p)),
        finished_strokes_drawable(after_end(c)),
        finished_strokes_drawable(after_clear(c)),
{
}

/// Starting, extending and ending strokes never changes or removes a
/// finished stroke: the finished strokes before are the first ones after.
pub proof fn lemma_finished_strokes_kept<S, P>(c: CanvasView<S, P>, style: S, p: P)
    ensures
        after_begin(c, style, p).0 == c.0,
        after_extend(c, p).0 == c.0,
        c.0.is_prefix_of(after_end(c).0),
        after_end(c).0.len() <= c.0.len() + 1,
{
    assert(c.0.is_prefix_of(after_end(c).0)) by {
        if c.1 is Some {
            let st = c.1->0;
            if st.1.len() > 1 {
                assert(c.0.push(st).subrange(0, c.0.len() as int) =~= c.0);
            } else {
                assert(c.0.subrange(0, c.0.len() as int) =~= c.0);
            }
        } else {
            assert(c.0.subrange(0, c.0.len() as int) =~= c.0);
        }
    }
}

/// A press and release of the pointer without a move leaves no stroke.
pub proof fn lemma_click_draws_nothing<S, P>(c: CanvasView<S, P>, style: S, p: P)
    ensures
        after_end(after_begin(c, style, p)) == (c.0, None::<StrokeView<S, P>>),
{
}

/// After clearing, nothing is painted.
pub proof fn lemma_clear_paints_nothing<S, P>(c: CanvasView<S, P>)
    ensures
        painted(after_clear(c)) == Seq::<StrokeView<S, P>>::empty(),
{
    reveal_with_fuel(Seq::<_>::filter, 1);
}

proof fn lemma_filter_keeps_all<S, P>(s: Seq<StrokeView<S, P>>)
    requires
        forall|i: int| 0 <= i < s.len() ==> is_drawable(#[trigger] s[i]),
    ensures
        s.filter(drawable_test()) == s,
    decreases s.len(),
{
    reveal_with_fuel(Seq::<_>::filter, 1);
    if s.len() > 0 {
        let t = s.drop_last();
        assert forall|i: int| 0 <= i < t.len() implies is_drawable(#[trigger] t[i]) by {
            assert(t[i] == s[i]);
        }
        lemma_filter_keeps_all(t);
        assert(is_drawable(s[s.len() - 1]));
        assert(t.push(s.last()) =~= s);
    }
}

/// On every canvas the operations can reach, all finished strokes are
/// painted, oldest first, and then the stroke being drawn once it has two
/// points.
pub proof fn lemma_painted_strokes<S, P>(c: CanvasView<S, P>)
    requires
        finished_strokes_drawable(c),
    ensures
        painted(c) == c.0 + match c.1 {
            Some(st) => if is_drawable(st) {
                seq![st]
            } else {
                Seq::empty()
            },
            None => Seq::empty(),
        },
{
    lemma_filter_keeps_all(c.0);
    match c.1 {
        Some(st) => {
            reveal_with_fuel(Seq::<_>::filter, 1);
            assert(c.0.push(st).drop_last() =~= c.0);
            if is_drawable(st) {
                assert(c.0.push(st) =~= c.0 + seq![st]);
            } else {
                assert(c.0 + Seq::<StrokeView<S, P>>::empty() =~= c.0);
            }
        },
        None => {
            assert(c.0 + Seq::<StrokeView<S, P>>::empty() =~= c.0);
        },
    }
}

/// The canvas after the pointer has moved through each of `moves` in turn.
pub open spec fn after_moves<S, P>(c: CanvasView<S, P>, moves: Seq<P>) -> CanvasView<S, P>
    decreases moves.len(),
{
    if moves.len() == 0 {
        c
    } else {
        after_moves(after_extend(c, moves[0]), moves.drop_first())
    }
}

proof fn lemma_moves_extend<S, P>(c: CanvasView<S, P>, style: S, pts: Seq<P>, moves: Seq<P>)
    requires
        c.1 == Some((style, pts)),
    ensures
        after_moves(c, moves) == (c.0, Some((style, pts + moves))),
    decreases moves.len(),
{
    if moves.len() == 0 {
        assert(pts + moves =~= pts);
    } else {
        let c2 = after_extend(c, moves[0]);
        lemma_moves_extend(c2, style, pts.push(moves[0]), moves.drop_first());
        assert(pts.push(moves[0]) + moves.drop_first() =~= pts + moves);
    }
}

/// A press at `start`, moves through `moves` and a release keep a stroke
/// through exactly those points, in that order, when the pointer moved at
/// least once; without a move nothing is kept.
pub proof fn lemma_drag_keeps_its_points<S, P>(c: CanvasView<S, P>, style: S, start: P, moves: Seq<P>)
    ensures
        after_end(after_moves(after_begin(c, style, start), moves)) == (if moves.len() > 0 {
            (c.0.push((style, seq![start] + moves)), None::<StrokeView<S, P>>)
        } else {
            (c.0, None::<StrokeView<S, P>>)
        }),
{
    lemma_moves_extend(after_begin(c, style, start), style, seq![start], moves);
}

} // verus!
