use crate::records::{decode_line, decode_record_line, OllamaResponse, SpecRecord};
use crate::requests::copy_context;
use vstd::prelude::*;

verus! {

// The response body arrives as arbitrary byte fragments. Records sit one
// per line; a line is complete once its terminating newline has arrived.
// The parser buffers the bytes after the last newline seen so far and
// decodes every completed line, skipping the ones that decode to nothing.

/// The position of the first newline at or after `i`, or the length when
/// there is none.
pub open spec fn first_nl(s: Seq<u8>, i: int) -> int
    decreases s.len() - i,
{
    if 0 <= i < s.len() {
        if s[i] == 10 {
            i
        } else {
            first_nl(s, i + 1)
        }
    } else {
        i
    }
}

/// The completed lines of `s`: every maximal newline-terminated span, in
/// order, without its newline.
pub open spec fn lines_of(s: Seq<u8>) -> Seq<Seq<u8>>
    decreases s.len(),
{
    let k = first_nl(s, 0);
    if 0 <= k < s.len() {
        seq![s.subrange(0, k)] + lines_of(s.subrange(k + 1, s.len() as int))
    } else {
        Seq::empty()
    }
}

/// The bytes after the last newline of `s`: the still-unterminated line.
pub open spec fn tail_of(s: Seq<u8>) -> Seq<u8>
    decreases s.len(),
{
    let k = first_nl(s, 0);
    if 0 <= k < s.len() {
        tail_of(s.subrange(k + 1, s.len() as int))
    } else {
        s
    }
}

/// The records decoded from a sequence of lines, ill-shaped lines skipped.
pub open spec fn decode_all(ls: Seq<Seq<u8>>) -> Seq<SpecRecord>
    decreases ls.len(),
{
    if ls.len() == 0 {
        Seq::empty()
    } else {
        match decode_line(ls[0]) {
            Some(r) => seq![r] + decode_all(ls.drop_first()),
            None => decode_all(ls.drop_first()),
        }
    }
}

/// The context token carried by the latest record flagged done, or the
/// empty token when none was.
pub open spec fn last_ctx(rs: Seq<SpecRecord>) -> Seq<i32>
    decreases rs.len(),
{
    if rs.len() == 0 {
        Seq::empty()
    } else if rs.last().done {
        rs.last().context
    } else {
        last_ctx(rs.drop_last())
    }
}

/// The models of a vector of decoded records.
pub open spec fn views_of(rs: Seq<OllamaResponse>) -> Seq<SpecRecord> {
    rs.map_values(|r: OllamaResponse| r@)
}

// ---------- facts about the splitter ----------

pub proof fn lemma_first_nl_props(s: Seq<u8>, i: int)
    requires
        0 <= i <= s.len(),
    ensures
        i <= first_nl(s, i) <= s.len(),
        first_nl(s, i) < s.len() ==> s[first_nl(s, i)] == 10,
        forall|j: int| i <= j < first_nl(s, i) ==> s[j] != 10,
    decreases s.len() - i,
{
    if i < s.len() && s[i] != 10 {
        lemma_first_nl_props(s, i + 1);
    }
}

pub proof fn lemma_first_nl_is(s: Seq<u8>, i: int, k: int)
    requires
        0 <= i <= k <= s.len(),
        k < s.len() ==> s[k] == 10,
        forall|j: int| i <= j < k ==> s[j] != 10,
    ensures
        first_nl(s, i) == k,
    decreases k - i,
{
    if i < k {
        lemma_first_nl_is(s, i + 1, k);
    }
}

/// Splitting distributes over concatenation: the lines of `a + b` are the
/// lines of `a` followed by the lines of `a`'s unterminated tail glued to
/// `b`, and the final tails agree.
pub proof fn lemma_split_concat(a: Seq<u8>, b: Seq<u8>)
    ensures
        lines_of(a + b) == lines_of(a) + lines_of(tail_of(a) + b),
        tail_of(a + b) == tail_of(tail_of(a) + b),
    decreases a.len(),
{
    lemma_first_nl_props(a, 0);
    let k = first_nl(a, 0);
    if k < a.len() {
        assert forall|j: int| 0 <= j < k implies (a + b)[j] != 10 by {
            assert((a + b)[j] == a[j]);
        }
        assert((a + b)[k] == a[k]);
        lemma_first_nl_is(a + b, 0, k);
        let rest = a.subrange(k + 1, a.len() as int);
        assert((a + b).subrange(0, k) =~= a.subrange(0, k));
        assert((a + b).subrange(k + 1, (a + b).len() as int) =~= rest + b);
        lemma_split_concat(rest, b);
        assert(lines_of(a + b) =~= lines_of(a) + lines_of(tail_of(a) + b));
    } else {
        assert(lines_of(a) =~= Seq::<Seq<u8>>::empty());
        assert(tail_of(a) == a);
        assert(tail_of(a) + b =~= a + b);
        assert(lines_of(a) + lines_of(a + b) =~= lines_of(a + b));
    }
}

pub proof fn lemma_decode_all_concat(x: Seq<Seq<u8>>, y: Seq<Seq<u8>>)
    ensures
        decode_all(x + y) == decode_all(x) + decode_all(y),
    decreases x.len(),
{
    if x.len() == 0 {
        assert(x + y =~= y);
        assert(decode_all(x) + decode_all(y) =~= decode_all(y));
    } else {
        assert((x + y).drop_first() =~= x.drop_first() + y);
        assert((x + y)[0] == x[0]);
        lemma_decode_all_concat(x.drop_first(), y);
        match decode_line(x[0]) {
            Some(r) => {
                assert(decode_all(x + y) == seq![r] + (decode_all(x.drop_first()) + decode_all(
                    y,
                )));
                assert(decode_all(x) == seq![r] + decode_all(x.drop_first()));
                assert(seq![r] + (decode_all(x.drop_first()) + decode_all(y)) =~= (seq![r]
                    + decode_all(x.drop_first())) + decode_all(y));
            },
            None => {
            },
        }
    }
}

pub proof fn lemma_decode_all_single(l: Seq<u8>)
    ensures
        decode_all(seq![l]) == match decode_line(l) {
            Some(r) => seq![r],
            None => Seq::<SpecRecord>::empty(),
        },
{
    assert(seq![l].drop_first() =~= Seq::<Seq<u8>>::empty());
    assert(decode_all(Seq::<Seq<u8>>::empty()) =~= Seq::<SpecRecord>::empty());
    assert(seq![l][0] == l);
    match decode_line(l) {
        Some(r) => {
            assert(seq![r] + Seq::<SpecRecord>::empty() =~= seq![r]);
        },
        None => {
        },
    }
}

pub proof fn lemma_last_ctx_push(rs: Seq<SpecRecord>, r: SpecRecord)
    ensures
        last_ctx(rs.push(r)) == if r.done {
            r.context
        } else {
            last_ctx(rs)
        },
{
    assert(rs.push(r).drop_last() =~= rs);
    assert(rs.push(r).last() == r);
}

// ---------- the laws ----------

/// Law: fragmentation invariance. Splitting a response byte stream at any
/// boundary and feeding the two halves in turn yields exactly the records
/// and the unterminated tail of the unsplit stream — the first half
/// contributes its completed lines, and its tail is resolved together with
/// the second half.
pub proof fn lemma_fragmentation_invariance(s: Seq<u8>, i: int)
    requires
        0 <= i <= s.len(),
    ensures
        decode_all(lines_of(s.subrange(0, i))) + decode_all(
            lines_of(tail_of(s.subrange(0, i)) + s.subrange(i, s.len() as int)),
        ) == decode_all(lines_of(s)),
        tail_of(tail_of(s.subrange(0, i)) + s.subrange(i, s.len() as int)) == tail_of(s),
{
    let a = s.subrange(0, i);
    let b = s.subrange(i, s.len() as int);
    assert(a + b =~= s);
    lemma_split_concat(a, b);
    lemma_decode_all_concat(lines_of(a), lines_of(tail_of(a) + b));
}

/// Law: malformed-record tolerance. A line that decodes to nothing
/// contributes nothing: the records around it are exactly those of the
/// stream without it.
pub proof fn lemma_garbage_line_skipped(x: Seq<Seq<u8>>, g: Seq<u8>, y: Seq<Seq<u8>>)
    requires
        decode_line(g) is None,
    ensures
        decode_all(x + seq![g] + y) == decode_all(x + y),
{
    lemma_decode_all_concat(x + seq![g], y);
    lemma_decode_all_concat(x, seq![g]);
    lemma_decode_all_single(g);
    lemma_decode_all_concat(x, y);
    assert(decode_all(x) + Seq::<SpecRecord>::empty() =~= decode_all(x));
}

/// Law: a stream whose records never carry the done flag yields the empty
/// context token.
pub proof fn lemma_no_done_no_context(rs: Seq<SpecRecord>)
    requires
        forall|k: int| 0 <= k < rs.len() ==> !(#[trigger] rs[k].done),
    ensures
        last_ctx(rs) == Seq::<i32>::empty(),
    decreases rs.len(),
{
    if rs.len() > 0 {
        lemma_no_done_no_context(rs.drop_last());
    }
}

// ---------- the incremental parser ----------

/// Incremental parser for one turn's response stream. It accumulates raw
/// fragments, resolves every completed line into a record, remembers the
/// context token of the latest record flagged done, and drops a trailing
/// unterminated line silently when the stream ends.
pub struct StreamParser {
    buf: Vec<u8>,
    context: Vec<i32>,
    history: Ghost<Seq<SpecRecord>>,
}

impl StreamParser {
    /// The bytes after the last newline seen so far.
    pub closed spec fn buffer(&self) -> Seq<u8> {
        self.buf@
    }

    /// Every record decoded so far, in stream order.
    pub closed spec fn recs(&self) -> Seq<SpecRecord> {
        self.history@
    }

    /// A parser is well formed when its buffer holds no newline and its
    /// remembered context is the one of its record history.
    pub closed spec fn wf(&self) -> bool {
        (forall|j: int| 0 <= j < self.buf@.len() ==> self.buf@[j] != 10) && self.context@
            == last_ctx(self.history@)
    }

    /// A fresh parser for one turn's response stream.
    pub fn new() -> (p: StreamParser)
        ensures
            p.wf(),
            p.buffer() == Seq::<u8>::empty(),
            p.recs() == Seq::<SpecRecord>::empty(),
    {
        let p = StreamParser { buf: Vec::new(), context: Vec::new(), history: Ghost(Seq::empty()) };
        proof {
            assert(p.buf@ =~= Seq::<u8>::empty());
            assert(p.context@ =~= Seq::<i32>::empty());
        }
        p
    }

    /// Absorbs one fragment: every line completed by it is decoded, in
    /// order, and the bytes after the last newline stay buffered for the
    /// next fragment.
    #[verifier::rlimit(60)]
    pub fn feed(&mut self, chunk: &Vec<u8>) -> (out: Vec<OllamaResponse>)
        requires
            old(self).wf(),
        ensures
            final(self).wf(),
            views_of(out@) == decode_all(
                lines_of(old(self).buffer() + chunk@),
            ),
            final(self).recs() == old(self).recs() + decode_all(
                lines_of(old(self).buffer() + chunk@),
            ),
            final(self).buffer() == tail_of(old(self).buffer() + chunk@),
    {
        let ghost h0 = self.history@;
        proof {
            assert(self.buf@ =~= old(self).buffer() + chunk@.take(0));
        }
        let mut k: usize = 0;
        while k < chunk.len()
            invariant
                0 <= k <= chunk.len(),
                self.buf@ == old(self).buffer() + chunk@.take(k as int),
                self.context == old(self).context,
                self.history == old(self).history,
            decreases chunk.len() - k,
        {
            self.buf.push(chunk[k]);
            proof {
                assert(self.buf@ =~= old(self).buffer() + chunk@.take(k as int + 1));
            }
            k += 1;
        }
        proof {
            assert(chunk@.take(chunk@.len() as int) =~= chunk@);
        }
        let ghost w = self.buf@;
        let mut out: Vec<OllamaResponse> = Vec::new();
        let mut start: usize = 0;
        let mut i: usize = 0;
        proof {
            assert(w.subrange(0, w.len() as int) =~= w);
            assert(views_of(out@) =~= Seq::<SpecRecord>::empty());
            assert(Seq::<SpecRecord>::empty() + decode_all(lines_of(w)) =~= decode_all(
                lines_of(w),
            ));
        }
        while i < self.buf.len()
            invariant
                0 <= start <= i <= self.buf.len(),
                w == self.buf@,
                forall|j: int| start <= j < i ==> w[j] != 10,
                views_of(out@) + decode_all(
                    lines_of(w.subrange(start as int, w.len() as int)),
                ) == decode_all(lines_of(w)),
                tail_of(w.subrange(start as int, w.len() as int)) == tail_of(w),
                self.context@ == last_ctx(h0 + views_of(out@)),
                self.history == old(self).history,
            decreases self.buf.len() - i,
        {
            if self.buf[i] == 10 {
                let line = copy_range(&self.buf, start, i);
                proof {
                    let sub = w.subrange(start as int, w.len() as int);
                    assert forall|j: int| 0 <= j < i - start implies sub[j] != 10 by {
                        assert(sub[j] == w[start + j]);
                    }
                    assert(sub[i - start] == w[i as int]);
                    lemma_first_nl_is(sub, 0, i - start);
                    assert(sub.subrange(0, i - start) =~= w.subrange(start as int, i as int));
                    assert(sub.subrange(i - start + 1, sub.len() as int) =~= w.subrange(
                        i as int + 1,
                        w.len() as int,
                    ));
                    assert(lines_of(sub) == seq![w.subrange(start as int, i as int)] + lines_of(
                        w.subrange(i as int + 1, w.len() as int),
                    ));
                    lemma_decode_all_concat(
                        seq![w.subrange(start as int, i as int)],
                        lines_of(w.subrange(i as int + 1, w.len() as int)),
                    );
                    lemma_decode_all_single(w.subrange(start as int, i as int));
                }
                match decode_record_line(&line) {
                    Some(rec) => {
                        if rec.done {
                            self.context = copy_context(&rec.context);
                        }
                        proof {
                            let f = |r: OllamaResponse| r@;
                            lemma_last_ctx_push(h0 + out@.map_values(f), rec@);
                            assert((h0 + out@.map_values(f)).push(rec@) =~= h0 + out@.map_values(
                                f,
                            ).push(rec@));
                            assert(out@.push(rec).map_values(f) =~= out@.map_values(f).push(rec@));
                            assert(out@.map_values(f).push(rec@) + decode_all(
                                lines_of(w.subrange(i as int + 1, w.len() as int)),
                            ) =~= out@.map_values(f) + (seq![rec@] + decode_all(
                                lines_of(w.subrange(i as int + 1, w.len() as int)),
                            )));
                        }
                        out.push(rec);
                    },
                    None => {
                        proof {
                            assert(Seq::<SpecRecord>::empty() + decode_all(
                                lines_of(w.subrange(i as int + 1, w.len() as int)),
                            ) =~= decode_all(lines_of(w.subrange(i as int + 1, w.len() as int))));
                        }
                    },
                }
                start = i + 1;
            }
            i += 1;
        }
        proof {
            let sub = w.subrange(start as int, w.len() as int);
            assert forall|j: int| 0 <= j < sub.len() implies sub[j] != 10 by {
                assert(sub[j] == w[start + j]);
            }
            lemma_first_nl_is(sub, 0, sub.len() as int);
            assert(decode_all(lines_of(sub)) =~= Seq::<SpecRecord>::empty());
            assert(views_of(out@) + Seq::<SpecRecord>::empty()
                =~= views_of(out@));
            assert(tail_of(sub) == sub);
        }
        let rest = copy_range(&self.buf, start, self.buf.len());
        self.buf = rest;
        self.history = Ghost(h0 + views_of(out@));
        out
    }

    /// Ends the stream: a trailing unterminated line is dropped silently,
    /// and the context token of the latest done record — empty when none
    /// arrived — is the turn's result.
    pub fn finish(self) -> (ctx: Vec<i32>)
        requires
            self.wf(),
        ensures
            ctx@ == last_ctx(self.recs()),
    {
        self.context
    }
}

/// Copies `v[a .. b)` into a fresh vector.
fn copy_range(v: &Vec<u8>, a: usize, b: usize) -> (out: Vec<u8>)
    requires
        a <= b <= v.len(),
    ensures
        out@ == v@.subrange(a as int, b as int),
{
    let mut out: Vec<u8> = Vec::new();
    proof {
        assert(out@ =~= v@.subrange(a as int, a as int));
    }
    let mut k: usize = a;
    while k < b
        invariant
            a <= k <= b <= v.len(),
            out@ == v@.subrange(a as int, k as int),
        decreases b - k,
    {
        out.push(v[k]);
        proof {
            assert(v@.subrange(a as int, k as int).push(v@[k as int]) =~= v@.subrange(
                a as int,
                k as int + 1,
            ));
        }
        k += 1;
    }
    proof {
        assert(out@ =~= v@.subrange(a as int, b as int));
    }
    out
}

} // verus!
