//! Where the bins of arithmetic-coded syntax come from.
//!
//! An arithmetic decoder is a deterministic machine: what it answers depends
//! on nothing but its state and the requests made so far. [`Source`] is that
//! dependence as a mathematical value, and [`BinSource`] is implemented by
//! whatever can answer. Every syntax element of this crate is then a function
//! of the source it is read from.
use vstd::prelude::*;
use crate::cabac_residual::ContextCategory;

verus! {

/// The context tables of a slice.
#[derive(Debug, Clone, Copy, PartialEq, Eq, Structural)]
pub enum CtxTable {
    MbTypeI,
    SkipP,
    MbTypeP,
    SubMbTypeP,
    SkipB,
    MbTypeB,
    SubMbTypeB,
    MvdComp0,
    MvdComp1,
    RefIdx,
    QpDelta,
    IntraChroma,
    PrevIntra4x4,
    RemIntra4x4,
    CbpLuma,
    CbpChroma,
    CbfLumaDc,
    CbfLumaAc,
    CbfLuma4x4,
    CbfChromaDc,
    CbfChromaAc,
    TransformSize8x8,
    /// Whether a scan position holds a coefficient.
    Significant(ContextCategory),
    /// Whether that coefficient is the last.
    Last(ContextCategory),
    /// The first bin of a level.
    AbsFirst(ContextCategory),
    /// Its further bins.
    AbsRest(ContextCategory),
    /// One context for scan positions that no table covers.
    Spare(ContextCategory),
}

/// One context of a table.
#[derive(Debug, Clone, Copy, PartialEq, Eq, Structural)]
pub struct Ctx {
    pub table: CtxTable,
    pub index: usize,
}

/// How many contexts a table has.
pub open spec fn table_size(t: CtxTable) -> int {
    match t {
        CtxTable::MbTypeI => 8,
        CtxTable::SkipP => 3,
        CtxTable::MbTypeP => 7,
        CtxTable::SubMbTypeP => 3,
        CtxTable::SkipB => 3,
        CtxTable::MbTypeB => 9,
        CtxTable::SubMbTypeB => 4,
        CtxTable::MvdComp0 => 7,
        CtxTable::MvdComp1 => 7,
        CtxTable::RefIdx => 6,
        CtxTable::QpDelta => 4,
        CtxTable::IntraChroma => 4,
        CtxTable::PrevIntra4x4 => 1,
        CtxTable::RemIntra4x4 => 1,
        CtxTable::CbpLuma => 4,
        CtxTable::CbpChroma => 8,
        CtxTable::CbfLumaDc => 4,
        CtxTable::CbfLumaAc => 4,
        CtxTable::CbfLuma4x4 => 4,
        CtxTable::CbfChromaDc => 4,
        CtxTable::CbfChromaAc => 4,
        CtxTable::TransformSize8x8 => 3,
        CtxTable::Significant(_) => 15,
        CtxTable::Last(_) => 15,
        CtxTable::AbsFirst(_) => 5,
        CtxTable::AbsRest(_) => 5,
        CtxTable::Spare(_) => 1,
    }
}

impl Ctx {
    /// The context exists.
    pub open spec fn valid(self) -> bool {
        self.index < table_size(self.table)
    }
}

/// Context `index` of a table.
pub open spec fn ctx(table: CtxTable, index: int) -> Ctx {
    Ctx { table, index: index as usize }
}

/// What can be asked of an arithmetic decoder.
pub enum Ask {
    /// A bin coded with a context.
    Decision(Ctx),
    /// An equiprobable bin.
    Bypass,
    /// Whether the coded run ends.
    Terminate,
    /// An equiprobable Exp-Golomb value of some order.
    Suffix(u32),
    /// To pass over a number of raw bytes and start again behind them.
    Raw(u32),
}

/// A state of a bin source, known by its answers: `respond(asked)` answers the
/// last of the requests `asked` when they are made in order from here. A bin
/// is set unless its answer is 0.
pub struct Source {
    pub respond: spec_fn(Seq<Ask>) -> u32,
}

impl Source {
    /// The answer to one request.
    pub open spec fn answer(self, a: Ask) -> u32 {
        (self.respond)(seq![a])
    }

    /// The source behind one request.
    pub open spec fn after(self, a: Ask) -> Source {
        Source {
            respond: |asked: Seq<Ask>|
                if asked.len() == 0 {
                    0u32
                } else {
                    (self.respond)(seq![a] + asked)
                },
        }
    }

    /// The value of a context-coded bin and the source behind it.
    pub open spec fn decide(self, c: Ctx) -> (bool, Source) {
        (self.answer(Ask::Decision(c)) != 0, self.after(Ask::Decision(c)))
    }

    /// The value of an equiprobable bin and the source behind it.
    pub open spec fn bypass(self) -> (bool, Source) {
        (self.answer(Ask::Bypass) != 0, self.after(Ask::Bypass))
    }

    /// Whether the coded run ends here, and the source behind.
    pub open spec fn terminate(self) -> (bool, Source) {
        (self.answer(Ask::Terminate) != 0, self.after(Ask::Terminate))
    }

    /// An equiprobable Exp-Golomb value and the source behind it.
    pub open spec fn suffix(self, k: u32) -> (u32, Source) {
        (self.answer(Ask::Suffix(k)), self.after(Ask::Suffix(k)))
    }

    /// The source behind raw bytes.
    pub open spec fn past_raw(self, bytes: u32) -> Source {
        self.after(Ask::Raw(bytes))
    }
}

/// Whatever answers requests for bins.
pub trait BinSource {
    /// Its state.
    spec fn source(&self) -> Source;

    /// Whether its representation is sound.
    spec fn wf(&self) -> bool;

    fn decode_decision(&mut self, c: Ctx) -> (b: bool)
        requires
            old(self).wf(),
            c.valid(),
        ensures
            final(self).wf(),
            (b, final(self).source()) == old(self).source().decide(c),
    ;

    fn decode_bypass(&mut self) -> (b: bool)
        requires
            old(self).wf(),
        ensures
            final(self).wf(),
            (b, final(self).source()) == old(self).source().bypass(),
    ;

    fn decode_terminate(&mut self) -> (b: bool)
        requires
            old(self).wf(),
        ensures
            final(self).wf(),
            (b, final(self).source()) == old(self).source().terminate(),
    ;

    fn decode_bypass_egk(&mut self, k: u32) -> (v: u32)
        requires
            old(self).wf(),
        ensures
            final(self).wf(),
            (v, final(self).source()) == old(self).source().suffix(k),
    ;

    fn skip_raw(&mut self, bytes: u32)
        requires
            old(self).wf(),
        ensures
            final(self).wf(),
            final(self).source() == old(self).source().past_raw(bytes),
    ;
}

} // verus!
