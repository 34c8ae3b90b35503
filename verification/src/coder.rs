//! Joins an arithmetic decoding engine with the contexts of a slice.
use vstd::prelude::*;
use crate::bins::{Ask, BinSource, Ctx, Source};
use crate::contexts::{slot, CabacMbCtx, ContextModel};

verus! {

/// An arithmetic decoding engine: a deterministic machine that reads bins and
/// adapts the model that a bin is coded with.
pub trait ArithmeticDecoder {
    /// What the engine's answers depend on.
    type State;

    /// The engine's state.
    spec fn state(&self) -> Self::State;

    /// A bin, the adapted model and the engine behind.
    spec fn decision(s: Self::State, m: ContextModel) -> (bool, ContextModel, Self::State);

    /// An equiprobable bin and the engine behind.
    spec fn bypass(s: Self::State) -> (bool, Self::State);

    /// Whether the coded run ends, and the engine behind.
    spec fn terminate(s: Self::State) -> (bool, Self::State);

    /// An equiprobable Exp-Golomb value of order `k`, and the engine behind.
    spec fn suffix(s: Self::State, k: u32) -> (u32, Self::State);

    /// The engine started again behind raw bytes.
    spec fn past_raw(s: Self::State, bytes: u32) -> Self::State;

    /// Whether what was read cannot have been coded.
    spec fn malformed(s: Self::State) -> bool;

    fn decode_decision(&mut self, m: &mut ContextModel) -> (b: bool)
        ensures
            (b, *final(m), final(self).state()) == Self::decision(old(self).state(), *old(m)),
    ;

    fn decode_bypass(&mut self) -> (b: bool)
        ensures
            (b, final(self).state()) == Self::bypass(old(self).state()),
    ;

    fn decode_terminate(&mut self) -> (b: bool)
        ensures
            (b, final(self).state()) == Self::terminate(old(self).state()),
    ;

    fn decode_bypass_egk(&mut self, k: u32) -> (v: u32)
        ensures
            (v, final(self).state()) == Self::suffix(old(self).state(), k),
    ;

    fn skip_raw(&mut self, bytes: u32)
        ensures
            final(self).state() == Self::past_raw(old(self).state(), bytes),
    ;

    fn is_malformed(&self) -> (b: bool)
        ensures
            b == Self::malformed(self.state()),
    ;
}

/// Recorded answers, played back in order whatever is asked: a bin is set
/// unless its answer is 0. Behind the last answer everything is 0. Models stay
/// as they are.
#[derive(Debug, Clone)]
pub struct BinScript {
    pub answers: Vec<u32>,
    pub next: usize,
}

/// The first of the answers to come, 0 behind the last.
pub open spec fn next_answer(s: Seq<u32>) -> u32 {
    if s.len() == 0 {
        0
    } else {
        s[0]
    }
}

/// The answers behind the first.
pub open spec fn later_answers(s: Seq<u32>) -> Seq<u32> {
    if s.len() == 0 {
        s
    } else {
        s.skip(1)
    }
}

impl BinScript {
    /// The answers still to come.
    pub open spec fn rest(&self) -> Seq<u32> {
        if self.next <= self.answers@.len() {
            self.answers@.skip(self.next as int)
        } else {
            Seq::empty()
        }
    }

    /// A script at its first answer.
    pub fn new(answers: Vec<u32>) -> (s: Self)
        ensures
            s.rest() == answers@,
    {
        let s = BinScript { answers, next: 0 };
        assert(s.rest() =~= answers@);
        s
    }

    fn take(&mut self) -> (v: u32)
        ensures
            v == next_answer(old(self).rest()),
            final(self).rest() == later_answers(old(self).rest()),
    {
        if self.next < self.answers.len() {
            let v: u32 = self.answers[self.next];
            self.next = self.next + 1;
            assert(self.rest() =~= old(self).rest().skip(1));
            v
        } else {
            0
        }
    }
}

impl ArithmeticDecoder for BinScript {
    type State = Seq<u32>;

    open spec fn state(&self) -> Seq<u32> {
        self.rest()
    }

    open spec fn decision(s: Seq<u32>, m: ContextModel) -> (bool, ContextModel, Seq<u32>) {
        (next_answer(s) != 0, m, later_answers(s))
    }

    open spec fn bypass(s: Seq<u32>) -> (bool, Seq<u32>) {
        (next_answer(s) != 0, later_answers(s))
    }

    open spec fn terminate(s: Seq<u32>) -> (bool, Seq<u32>) {
        (next_answer(s) != 0, later_answers(s))
    }

    open spec fn suffix(s: Seq<u32>, k: u32) -> (u32, Seq<u32>) {
        (next_answer(s), later_answers(s))
    }

    open spec fn past_raw(s: Seq<u32>, bytes: u32) -> Seq<u32> {
        s
    }

    open spec fn malformed(s: Seq<u32>) -> bool {
        false
    }

    fn decode_decision(&mut self, m: &mut ContextModel) -> (b: bool) {
        self.take() != 0
    }

    fn decode_bypass(&mut self) -> (b: bool) {
        self.take() != 0
    }

    fn decode_terminate(&mut self) -> (b: bool) {
        self.take() != 0
    }

    fn decode_bypass_egk(&mut self, k: u32) -> (v: u32) {
        self.take()
    }

    fn skip_raw(&mut self, bytes: u32) {
    }

    fn is_malformed(&self) -> (b: bool) {
        false
    }
}

/// An engine with the contexts of a slice.
pub struct Coder<E: ArithmeticDecoder> {
    pub engine: E,
    pub contexts: CabacMbCtx,
}

/// A bin as a number.
pub open spec fn bin_value(b: bool) -> u32 {
    if b {
        1
    } else {
        0
    }
}

/// The answer to one request, and engine and models behind it.
pub open spec fn coder_step<E: ArithmeticDecoder>(
    engine: E::State,
    models: Seq<ContextModel>,
    a: Ask,
) -> (u32, E::State, Seq<ContextModel>) {
    match a {
        Ask::Decision(c) => {
            let (b, m, e) = E::decision(engine, models[slot(c)]);
            (bin_value(b), e, models.update(slot(c), m))
        },
        Ask::Bypass => {
            let (b, e) = E::bypass(engine);
            (bin_value(b), e, models)
        },
        Ask::Terminate => {
            let (b, e) = E::terminate(engine);
            (bin_value(b), e, models)
        },
        Ask::Suffix(k) => {
            let (v, e) = E::suffix(engine, k);
            (v, e, models)
        },
        Ask::Raw(n) => (0, E::past_raw(engine, n), models),
    }
}

/// The answer to the last of some requests.
pub open spec fn coder_answer<E: ArithmeticDecoder>(
    engine: E::State,
    models: Seq<ContextModel>,
    asked: Seq<Ask>,
) -> u32
    decreases asked.len(),
{
    if asked.len() == 0 {
        0
    } else {
        let (v, e, m) = coder_step::<E>(engine, models, asked[0]);
        if asked.len() == 1 {
            v
        } else {
            coder_answer::<E>(e, m, asked.skip(1))
        }
    }
}

/// The bin source that an engine and a slice's contexts make together.
pub open spec fn coder_source<E: ArithmeticDecoder>(
    engine: E::State,
    models: Seq<ContextModel>,
) -> Source {
    Source { respond: |asked: Seq<Ask>| coder_answer::<E>(engine, models, asked) }
}

proof fn lemma_step<E: ArithmeticDecoder>(engine: E::State, models: Seq<ContextModel>, a: Ask)
    ensures
        coder_source::<E>(engine, models).answer(a) == coder_step::<E>(engine, models, a).0,
        coder_source::<E>(engine, models).after(a) == coder_source::<E>(
            coder_step::<E>(engine, models, a).1,
            coder_step::<E>(engine, models, a).2,
        ),
{
    let s = coder_source::<E>(engine, models);
    let (v, e, m) = coder_step::<E>(engine, models, a);
    let t = coder_source::<E>(e, m);
    let before = s.after(a).respond;
    assert forall|asked: Seq<Ask>| #[trigger] before(asked) == (t.respond)(asked) by {
        if asked.len() > 0 {
            let all = seq![a] + asked;
            assert(all.skip(1) =~= asked);
            assert(all[0] == a);
        }
    }
    assert(before =~= t.respond);
}

impl<E: ArithmeticDecoder> Coder<E> {
    /// An engine with contexts of its own.
    pub fn new(engine: E, contexts: CabacMbCtx) -> (r: Self)
        requires
            contexts.wf(),
        ensures
            r.wf(),
            r.engine == engine,
            r.contexts == contexts,
            r.source() == coder_source::<E>(engine.state(), contexts.models@),
    {
        Coder { engine, contexts }
    }

    /// Starts a slice: the engine goes on, the contexts are initialised.
    pub fn start_slice(&mut self, contexts: CabacMbCtx)
        requires
            contexts.wf(),
        ensures
            final(self).wf(),
            final(self).source() == coder_source::<E>(old(self).engine.state(), contexts.models@),
    {
        self.contexts = contexts;
    }
}

impl<E: ArithmeticDecoder> BinSource for Coder<E> {
    open spec fn source(&self) -> Source {
        coder_source::<E>(self.engine.state(), self.contexts.models@)
    }

    open spec fn wf(&self) -> bool {
        self.contexts.wf()
    }

    fn decode_decision(&mut self, c: Ctx) -> (b: bool) {
        proof {
            lemma_step::<E>(self.engine.state(), self.contexts.models@, Ask::Decision(c));
        }
        let mut m: ContextModel = self.contexts.model(c);
        let b: bool = self.engine.decode_decision(&mut m);
        self.contexts.set_model(c, m);
        b
    }

    fn decode_bypass(&mut self) -> (b: bool) {
        proof {
            lemma_step::<E>(self.engine.state(), self.contexts.models@, Ask::Bypass);
        }
        self.engine.decode_bypass()
    }

    fn decode_terminate(&mut self) -> (b: bool) {
        proof {
            lemma_step::<E>(self.engine.state(), self.contexts.models@, Ask::Terminate);
        }
        self.engine.decode_terminate()
    }

    fn decode_bypass_egk(&mut self, k: u32) -> (v: u32) {
        proof {
            lemma_step::<E>(self.engine.state(), self.contexts.models@, Ask::Suffix(k));
        }
        self.engine.decode_bypass_egk(k)
    }

    fn skip_raw(&mut self, bytes: u32) {
        proof {
            lemma_step::<E>(self.engine.state(), self.contexts.models@, Ask::Raw(bytes));
        }
        self.engine.skip_raw(bytes)
    }
}

} // verus!
