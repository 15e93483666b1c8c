use crate::config::Config;
use crate::requests::{generate_first_request, generate_request, OllamaRequest};
use crate::text::chars_vec;
use vstd::prelude::*;
use vstd::string::StringExecFns;

verus! {

// The session loop owns two pieces of state. The input aggregator buffers
// arriving lines until a debounce timeout flushes them, newline-joined, as
// one turn body. The session state machine owns the evolving context token
// and guarantees that turns never overlap: a turn must be begun from the
// idle state and finished — successfully or not — before the next one.

// ---------- joining lines ----------

/// The views of a vector of lines.
pub open spec fn line_views(ls: Seq<String>) -> Seq<Seq<char>> {
    ls.map_values(|s: String| s@)
}

/// Lines joined with single newline separators: none at either end.
pub open spec fn join_lines(ls: Seq<Seq<char>>) -> Seq<char>
    decreases ls.len(),
{
    if ls.len() == 0 {
        Seq::empty()
    } else if ls.len() == 1 {
        ls[0]
    } else {
        join_lines(ls.drop_last()) + seq!['\n'] + ls.last()
    }
}

/// The characters the lines themselves contribute.
pub open spec fn total_len(ls: Seq<Seq<char>>) -> int
    decreases ls.len(),
{
    if ls.len() == 0 {
        0
    } else {
        total_len(ls.drop_last()) + ls.last().len()
    }
}

/// Law: a turn body made of lines L1..Ln is exactly L1\n...\nLn — one
/// separator between neighbouring lines and no trailing one, so its length
/// is the lines' own length plus n - 1.
pub proof fn lemma_join_exact(ls: Seq<Seq<char>>)
    requires
        ls.len() > 0,
    ensures
        join_lines(ls).len() == total_len(ls) + ls.len() - 1,
    decreases ls.len(),
{
    if ls.len() == 1 {
        assert(total_len(ls) == total_len(ls.drop_last()) + ls.last().len());
        assert(join_lines(ls) == ls[0]);
    } else {
        lemma_join_exact(ls.drop_last());
    }
}

// ---------- the input aggregator ----------

/// Buffers arriving input lines until a debounce boundary flushes them as
/// one turn body.
pub struct InputAggregator {
    pending: Vec<String>,
}

impl InputAggregator {
    /// The buffered lines, in arrival order.
    pub closed spec fn lines(&self) -> Seq<Seq<char>> {
        line_views(self.pending@)
    }

    pub fn new() -> (a: InputAggregator)
        ensures
            a.lines() == Seq::<Seq<char>>::empty(),
    {
        let a = InputAggregator { pending: Vec::new() };
        proof {
            assert(a.lines() =~= Seq::<Seq<char>>::empty());
        }
        a
    }

    /// Buffers one arrived line behind the ones already waiting.
    pub fn push_line(&mut self, line: String)
        ensures
            final(self).lines() == old(self).lines().push(line@),
    {
        let ghost l = line@;
        self.pending.push(line);
        proof {
            assert(line_views(self.pending@) =~= line_views(old(self).pending@).push(l));
        }
    }

    /// The debounce boundary: an empty buffer yields no turn and stays as
    /// it is; a non-empty one is drained into a single newline-joined turn
    /// body, the lines in arrival order.
    pub fn flush(&mut self) -> (t: Option<String>)
        ensures
            final(self).lines() == Seq::<Seq<char>>::empty(),
            match t {
                Some(body) => old(self).lines().len() > 0 && body@ == join_lines(
                    old(self).lines(),
                ),
                None => old(self).lines().len() == 0,
            },
    {
        if self.pending.len() == 0 {
            proof {
                assert(self.lines() =~= Seq::<Seq<char>>::empty());
            }
            return None;
        }
        let ghost m = self.lines();
        let mut out = String::new();
        proof {
            assert(m.take(0) =~= Seq::<Seq<char>>::empty());
        }
        let mut k: usize = 0;
        while k < self.pending.len()
            invariant
                0 <= k <= self.pending.len(),
                m == line_views(self.pending@),
                out@ == join_lines(m.take(k as int)),
            decreases self.pending.len() - k,
        {
            if k > 0 {
                out.append("\n");
            }
            out.append(self.pending[k].as_str());
            proof {
                reveal_strlit("\n");
                assert("\n"@ =~= seq!['\n']);
                let t1 = m.take(k as int + 1);
                assert(t1.drop_last() =~= m.take(k as int));
                assert(t1.last() == m[k as int]);
                assert(m[k as int] == self.pending@[k as int]@);
                if k == 0 {
                    assert(join_lines(t1) == t1[0]);
                    assert(out@ =~= join_lines(t1));
                } else {
                    assert(join_lines(t1) == join_lines(m.take(k as int)) + seq!['\n']
                        + m[k as int]);
                    assert(out@ =~= join_lines(t1));
                }
            }
            k += 1;
        }
        proof {
            assert(m.take(m.len() as int) =~= m);
        }
        self.pending = Vec::new();
        proof {
            assert(self.lines() =~= Seq::<Seq<char>>::empty());
        }
        Some(out)
    }
}

// ---------- the turn's output ----------

/// Watches the text emitted for one turn, to decide whether a final line
/// break must be appended when the turn ends.
pub struct OutputTracker {
    any: bool,
    ends_nl: bool,
    seen: Ghost<Seq<char>>,
}

impl OutputTracker {
    /// Everything emitted for this turn so far.
    pub closed spec fn emitted(&self) -> Seq<char> {
        self.seen@
    }

    pub closed spec fn wf(&self) -> bool {
        self.any == (self.seen@.len() > 0) && self.ends_nl == (self.seen@.len() > 0
            && self.seen@.last() == '\n')
    }

    pub fn new() -> (t: OutputTracker)
        ensures
            t.wf(),
            t.emitted() == Seq::<char>::empty(),
    {
        OutputTracker { any: false, ends_nl: false, seen: Ghost(Seq::empty()) }
    }

    /// Records one emitted chunk.
    pub fn note(&mut self, chunk: &str)
        requires
            old(self).wf(),
        ensures
            final(self).wf(),
            final(self).emitted() == old(self).emitted() + chunk@,
    {
        let cs = chars_vec(chunk);
        if cs.len() > 0 {
            self.any = true;
            self.ends_nl = cs[cs.len() - 1] == '\n';
        }
        self.seen = Ghost(self.seen@ + chunk@);
        proof {
            if chunk@.len() == 0 {
                assert(old(self).seen@ + chunk@ =~= old(self).seen@);
            } else {
                assert((old(self).seen@ + chunk@).last() == chunk@.last());
            }
        }
    }

    /// Whether the turn's output lacks its final line break: some text was
    /// emitted and it does not already end in one.
    pub fn needs_final_newline(&self) -> (r: bool)
        requires
            self.wf(),
        ensures
            r == (self.emitted().len() > 0 && self.emitted().last() != '\n'),
    {
        self.any && !self.ends_nl
    }
}

// ---------- the session state machine ----------

/// The model of the session state: whether a turn is in flight, and the
/// context token accumulated so far.
pub struct SessionModel {
    pub idle: bool,
    pub context: Option<Seq<i32>>,
}

/// What can happen to a session: a turn begins, or the turn in flight ends
/// with a new context token or with a failure.
pub enum TurnEvent {
    Begin,
    FinishOk(Seq<i32>),
    FinishErr,
}

/// How one event moves the session state; `None` marks a forbidden step.
pub open spec fn session_step(m: SessionModel, e: TurnEvent) -> Option<SessionModel> {
    match e {
        TurnEvent::Begin => if m.idle {
            Some(SessionModel { idle: false, context: m.context })
        } else {
            None
        },
        TurnEvent::FinishOk(ctx) => if !m.idle {
            Some(SessionModel { idle: true, context: Some(ctx) })
        } else {
            None
        },
        TurnEvent::FinishErr => if !m.idle {
            Some(SessionModel { idle: true, context: m.context })
        } else {
            None
        },
    }
}

/// Runs a whole event trace; `None` as soon as a step is forbidden.
pub open spec fn session_run(m: SessionModel, es: Seq<TurnEvent>) -> Option<SessionModel>
    decreases es.len(),
{
    if es.len() == 0 {
        Some(m)
    } else {
        match session_step(m, es[0]) {
            None => None,
            Some(m2) => session_run(m2, es.drop_first()),
        }
    }
}

proof fn lemma_run_between(m: SessionModel, es: Seq<TurnEvent>, i: int, j: int)
    requires
        session_run(m, es) is Some,
        0 <= i < j < es.len(),
        es[i] is Begin,
        es[j] is Begin,
    ensures
        exists|k: int| i < k < j && !(#[trigger] es[k] is Begin),
    decreases es.len(),
{
    let m2 = session_step(m, es[0]).unwrap();
    if i == 0 {
        if es[1] is Begin {
            assert(es.drop_first()[0] == es[1]);
            assert(session_step(m2, es[1]) is None);
            assert(session_run(m2, es.drop_first()) is None);
            assert(false);
        } else {
            assert(0 < 1 < j && !(es[1] is Begin));
        }
    } else {
        lemma_run_between(m2, es.drop_first(), i - 1, j - 1);
        let k0 = choose|k: int| i - 1 < k < j - 1 && !(#[trigger] es.drop_first()[k] is Begin);
        assert(es.drop_first()[k0] == es[k0 + 1]);
        assert(i < k0 + 1 < j && !(es[k0 + 1] is Begin));
    }
}

/// Law: turns are strictly sequential. In any event trace the session
/// accepts from its initial state, a finish — success or failure — stands
/// between any two turn beginnings: no second turn can begin before the
/// first one's outcome is recorded.
pub proof fn lemma_turns_sequential(es: Seq<TurnEvent>, i: int, j: int)
    requires
        session_run(SessionModel { idle: true, context: None }, es) is Some,
        0 <= i < j < es.len(),
        es[i] is Begin,
        es[j] is Begin,
    ensures
        exists|k: int| i < k < j && !(#[trigger] es[k] is Begin),
{
    lemma_run_between(SessionModel { idle: true, context: None }, es, i, j);
}

/// The session loop's own state: the context token carried from turn to
/// turn, and whether a turn is in flight.
pub struct SessionState {
    context: Option<Vec<i32>>,
    in_flight: bool,
}

impl View for SessionState {
    type V = SessionModel;

    closed spec fn view(&self) -> SessionModel {
        SessionModel {
            idle: !self.in_flight,
            context: match self.context {
                Some(ref c) => Some(c@),
                None => None,
            },
        }
    }
}

impl SessionState {
    /// A fresh session: idle, with no context token yet.
    pub fn new() -> (s: SessionState)
        ensures
            s@ == (SessionModel { idle: true, context: None::<Seq<i32>> }),
    {
        SessionState { context: None, in_flight: false }
    }

    /// Whether the session can begin a turn.
    pub fn is_idle(&self) -> (r: bool)
        ensures
            r == self@.idle,
    {
        !self.in_flight
    }

    /// Begins a turn: builds the request for the body — a first request
    /// when no context token exists yet, a continuation carrying the token
    /// unchanged otherwise — and marks the session in flight. Only an idle
    /// session can begin a turn.
    pub fn begin_turn(&mut self, body: &str, config: &Config) -> (req: OllamaRequest)
        requires
            old(self)@.idle,
        ensures
            final(self)@ == session_step(old(self)@, TurnEvent::Begin).unwrap(),
            !final(self)@.idle,
            req@.model == config.model@,
            req@.prompt == body@,
            req@.system == config.prompt@,
            req@.stream,
            req@.context == old(self)@.context,
    {
        self.in_flight = true;
        match &self.context {
            None => generate_first_request(body, config),
            Some(ctx) => generate_request(body, config, ctx),
        }
    }

    /// Records a completed turn: the returned context token replaces the
    /// old one, and the session is idle again.
    pub fn complete_turn(&mut self, ctx: Vec<i32>)
        requires
            !old(self)@.idle,
        ensures
            final(self)@ == session_step(old(self)@, TurnEvent::FinishOk(ctx@)).unwrap(),
            final(self)@.idle,
            final(self)@.context == Some(ctx@),
    {
        self.context = Some(ctx);
        self.in_flight = false;
    }

    /// Records a failed turn: the context token is left as it was — no
    /// partial update — and the session is idle again, though the caller
    /// is expected to stop after a failure.
    pub fn fail_turn(&mut self)
        requires
            !old(self)@.idle,
        ensures
            final(self)@ == session_step(old(self)@, TurnEvent::FinishErr).unwrap(),
            final(self)@.idle,
            final(self)@.context == old(self)@.context,
    {
        self.in_flight = false;
    }
}

} // verus!
