use vstd::prelude::*;

verus! {

/// What the nearest-hit query and the hit actor's material made of one ray,
/// with colors of type `C` and rays of type `R`.
pub enum Interaction<C, R> {
    /// The ray hits no actor.
    Miss,
    /// The ray hits a surface that emits this color and does not scatter.
    Emitted(C),
    /// The ray hits a surface that absorbs it (a metal whose perturbed
    /// reflection points into the surface).
    Absorbed,
    /// The ray hits a surface that scatters it: the attenuation and the new ray.
    Scattered(C, R),
}

/// The color at the end of a traced path, before the attenuations collected
/// along the path are applied to it.
#[derive(Clone, Copy, PartialEq, Eq, Structural, Debug)]
pub enum Terminal<C> {
    Black,
    Background,
    Emitted(C),
}

/// What the caller does next while a path is traced.
pub enum Action<C, R> {
    /// Query the scene with this ray and step with what it gives.
    Trace(R),
    /// The path is done: its color is the product of the collected
    /// attenuations and this terminal color.
    Finish(Terminal<C>),
}

/// The state of one path: how deep it is, how deep it may go, the
/// attenuations collected so far and, once it is done, its terminal color.
pub struct TraceView<C> {
    pub depth: nat,
    pub max_depth: nat,
    pub attenuations: Seq<C>,
    pub finished: Option<Terminal<C>>,
}

/// The state of a fresh path that may go `max_depth` bounces deep.
pub open spec fn start_view<C>(max_depth: nat) -> TraceView<C> {
    TraceView {
        depth: 0,
        max_depth,
        attenuations: Seq::empty(),
        finished: if max_depth == 0 {
            Some(Terminal::Black)
        } else {
            None
        },
    }
}

/// What a fresh path asks for first: its primary ray, unless no bounce at
/// all is allowed, in which case the path is black.
pub open spec fn start_action<C, R>(ray: R, max_depth: nat) -> Action<C, R> {
    if max_depth == 0 {
        Action::Finish(Terminal::Black)
    } else {
        Action::Trace(ray)
    }
}

/// The terminal color that an interaction ends a path with at this state,
/// if it ends it.
pub open spec fn ends_with<C, R>(v: TraceView<C>, ev: Interaction<C, R>) -> Option<Terminal<C>> {
    match ev {
        Interaction::Miss => Some(Terminal::Background),
        Interaction::Emitted(c) => Some(Terminal::Emitted(c)),
        Interaction::Absorbed => Some(Terminal::Black),
        Interaction::Scattered(_, _) => if v.depth + 1 >= v.max_depth {
            Some(Terminal::Black)
        } else {
            None
        },
    }
}

/// The state after one interaction; a finished path does not change.
pub open spec fn next_view<C, R>(v: TraceView<C>, ev: Interaction<C, R>) -> TraceView<C> {
    if v.finished is Some {
        v
    } else {
        match ev {
            Interaction::Scattered(a, _) => TraceView {
                depth: v.depth + 1,
                attenuations: v.attenuations.push(a),
                finished: ends_with(v, ev),
                ..v
            },
            _ => TraceView { finished: ends_with(v, ev), ..v },
        }
    }
}

/// What the caller does after one interaction.
pub open spec fn next_action<C, R>(v: TraceView<C>, ev: Interaction<C, R>) -> Action<C, R> {
    if v.finished is Some {
        Action::Finish(v.finished->0)
    } else {
        match ends_with(v, ev) {
            Some(t) => Action::Finish(t),
            None => match ev {
                Interaction::Scattered(_, r) => Action::Trace(r),
                _ => Action::Finish(Terminal::Black),
            },
        }
    }
}

/// The invariant of a path's state: the depth counts the collected
/// attenuations and stays within the allowed depth, and a live path is below
/// it.
pub open spec fn trace_wf<C>(v: TraceView<C>) -> bool {
    &&& v.depth <= v.max_depth
    &&& v.attenuations.len() == v.depth
    &&& v.finished is None ==> v.depth < v.max_depth
}

/// The state after a sequence of interactions, one per traced ray.
pub open spec fn run<C, R>(v: TraceView<C>, events: Seq<Interaction<C, R>>) -> TraceView<C>
    decreases events.len(),
{
    if events.len() == 0 {
        v
    } else {
        run(next_view(v, events[0]), events.drop_first())
    }
}

/// The color of a path traced from `depth`, by the recursive algorithm: at
/// the depth limit black; otherwise what the first ray meets decides, and a
/// scattered ray's attenuation goes before the colors of the rest of the
/// path. The result is the attenuations in order with the terminal color, or
/// `None` where the interactions run out before the path ends.
pub open spec fn path_color<C, R>(events: Seq<Interaction<C, R>>, depth: nat, max_depth: nat) -> Option<
    (Seq<C>, Terminal<C>),
>
    decreases events.len(),
{
    if depth >= max_depth {
        Some((Seq::empty(), Terminal::Black))
    } else if events.len() == 0 {
        None
    } else {
        match events[0] {
            Interaction::Miss => Some((Seq::empty(), Terminal::Background)),
            Interaction::Emitted(c) => Some((Seq::empty(), Terminal::Emitted(c))),
            Interaction::Absorbed => Some((Seq::empty(), Terminal::Black)),
            Interaction::Scattered(a, _) => match path_color(
                events.drop_first(),
                depth + 1,
                max_depth,
            ) {
                Some(p) => Some((seq![a] + p.0, p.1)),
                None => None,
            },
        }
    }
}

/// A finished path ignores whatever it is handed.
pub proof fn lemma_run_finished<C, R>(v: TraceView<C>, events: Seq<Interaction<C, R>>)
    requires
        v.finished is Some,
    ensures
        run(v, events) == v,
    decreases events.len(),
{
    if events.len() > 0 {
        lemma_run_finished(next_view(v, events[0]), events.drop_first());
    }
}

/// Stepping a live path through the interactions of its rays gives what the
/// recursive algorithm gives: the attenuations of the path follow those
/// collected so far, and the path ends with the same terminal color.
pub proof fn lemma_run_matches_recursion<C, R>(v: TraceView<C>, events: Seq<Interaction<C, R>>)
    requires
        trace_wf(v),
        v.finished is None,
        path_color(events, v.depth, v.max_depth) is Some,
    ensures
        run(v, events).attenuations == v.attenuations + path_color(
            events,
            v.depth,
            v.max_depth,
        ).unwrap().0,
        run(v, events).finished == Some(path_color(events, v.depth, v.max_depth).unwrap().1),
    decreases events.len(),
{
    let next = next_view(v, events[0]);
    let rest = events.drop_first();
    match events[0] {
        Interaction::Scattered(a, _) => {
            if v.depth + 1 >= v.max_depth {
                lemma_run_finished(next, rest);
                assert(v.attenuations.push(a) =~= v.attenuations + seq![a]);
            } else {
                lemma_run_matches_recursion(next, rest);
                let p = path_color(rest, v.depth + 1, v.max_depth)->0;
                assert(v.attenuations.push(a) + p.0 =~= v.attenuations + (seq![a] + p.0));
            }
        },
        _ => {
            lemma_run_finished(next, rest);
            assert(v.attenuations + Seq::<C>::empty() =~= v.attenuations);
        },
    }
}

/// A fresh path, stepped through the interactions of its rays, has the color
/// that the recursive algorithm gives from depth zero.
pub proof fn lemma_tracer_computes_path_color<C, R>(
    max_depth: nat,
    events: Seq<Interaction<C, R>>,
)
    requires
        path_color(events, 0, max_depth) is Some,
    ensures
        run(start_view::<C>(max_depth), events).attenuations == path_color(
            events,
            0,
            max_depth,
        ).unwrap().0,
        run(start_view::<C>(max_depth), events).finished == Some(
            path_color(events, 0, max_depth).unwrap().1,
        ),
{
    let v = start_view::<C>(max_depth);
    if max_depth == 0 {
        lemma_run_finished(v, events);
    } else {
        lemma_run_matches_recursion(v, events);
        assert(v.attenuations + path_color(events, 0, max_depth).unwrap().0 =~= path_color(
            events,
            0,
            max_depth,
        ).unwrap().0);
    }
}

/// With no bounce allowed a path is black whatever its ray and whatever the
/// scene would make of it: the first hit is never shaded.
pub proof fn lemma_recursion_ceiling<C, R>(ray: R, events: Seq<Interaction<C, R>>)
    ensures
        start_action::<C, R>(ray, 0) == Action::<C, R>::Finish(Terminal::Black),
        run(start_view::<C>(0), events).attenuations.len() == 0,
        run(start_view::<C>(0), events).finished == Some(Terminal::<C>::Black),
{
    lemma_run_finished(start_view::<C>(0), events);
}

/// A primary ray that hits nothing gives exactly the background: the path
/// ends at once with no attenuation applied to it.
pub proof fn lemma_no_hit_background<C, R>(ray: R, max_depth: nat)
    requires
        max_depth > 0,
    ensures
        start_action::<C, R>(ray, max_depth) == Action::<C, R>::Trace(ray),
        next_action(start_view::<C>(max_depth), Interaction::<C, R>::Miss) == Action::<
            C,
            R,
        >::Finish(Terminal::Background),
        next_view(start_view::<C>(max_depth), Interaction::<C, R>::Miss).attenuations.len() == 0,
{
}

/// A ray that a surface absorbs ends its path in black: nothing more is
/// traced and no attenuation is added.
pub proof fn lemma_absorbed_is_black<C, R>(v: TraceView<C>)
    requires
        trace_wf(v),
        v.finished is None,
    ensures
        next_action(v, Interaction::<C, R>::Absorbed) == Action::<C, R>::Finish(Terminal::Black),
        next_view(v, Interaction::<C, R>::Absorbed).attenuations == v.attenuations,
        next_view(v, Interaction::<C, R>::Absorbed).finished == Some(Terminal::<C>::Black),
{
}

/// Traces one path iteratively: the caller queries the scene for each ray
/// that the tracer asks for and hands back what came of it.
pub struct Tracer<C> {
    depth: usize,
    max_depth: usize,
    attenuations: Vec<C>,
    finished: Option<Terminal<C>>,
}

impl<C> View for Tracer<C> {
    type V = TraceView<C>;

    closed spec fn view(&self) -> TraceView<C> {
        TraceView {
            depth: self.depth as nat,
            max_depth: self.max_depth as nat,
            attenuations: self.attenuations@,
            finished: self.finished,
        }
    }
}

impl<C: Copy> Tracer<C> {
    /// The tracer's invariant: the depth counts the collected attenuations
    /// and stays within the allowed depth, and a live path is below it.
    pub open spec fn wf(&self) -> bool {
        trace_wf(self@)
    }

    /// Starts a path at `ray` that may bounce `max_depth` times.
    pub fn start<R>(ray: R, max_depth: usize) -> (r: (Tracer<C>, Action<C, R>))
        ensures
            r.0.wf(),
            r.0@ == start_view::<C>(max_depth as nat),
            r.1 == start_action::<C, R>(ray, max_depth as nat),
    {
        let t = Tracer {
            depth: 0,
            max_depth,
            attenuations: Vec::new(),
            finished: if max_depth == 0 {
                Some(Terminal::Black)
            } else {
                None
            },
        };
        if max_depth == 0 {
            (t, Action::Finish(Terminal::Black))
        } else {
            (t, Action::Trace(ray))
        }
    }

    /// Takes what came of the last traced ray and says what to do next.
    pub fn step<R>(&mut self, ev: Interaction<C, R>) -> (r: Action<C, R>)
        requires
            old(self).wf(),
        ensures
            final(self).wf(),
            final(self)@ == next_view(old(self)@, ev),
            r == next_action(old(self)@, ev),
    {
        if let Some(t) = self.finished {
            return Action::Finish(t);
        }
        match ev {
            Interaction::Miss => {
                self.finished = Some(Terminal::Background);
                Action::Finish(Terminal::Background)
            },
            Interaction::Emitted(c) => {
                self.finished = Some(Terminal::Emitted(c));
                Action::Finish(Terminal::Emitted(c))
            },
            Interaction::Absorbed => {
                self.finished = Some(Terminal::Black);
                Action::Finish(Terminal::Black)
            },
            Interaction::Scattered(a, ray) => {
                self.attenuations.push(a);
                self.depth = self.depth + 1;
                if self.depth >= self.max_depth {
                    self.finished = Some(Terminal::Black);
                    Action::Finish(Terminal::Black)
                } else {
                    Action::Trace(ray)
                }
            },
        }
    }

    /// The attenuations collected along the path so far, first bounce first.
    pub fn attenuations(&self) -> (r: &Vec<C>)
        ensures
            r@ == self@.attenuations,
    {
        &self.attenuations
    }

    /// The path's terminal color, once it is done.
    pub fn finished(&self) -> (r: Option<Terminal<C>>)
        ensures
            r == self@.finished,
    {
        self.finished
    }
}

} // verus!
