//! What an access unit holds besides its slice, and which parameters its slice
//! asks for.
use vstd::prelude::*;
use crate::bits::BitReader;
use crate::error::{Error, Reason};
use crate::golomb::ue;

verus! {

/// A fraction.
#[derive(Debug, Clone, Copy, PartialEq, Eq, Structural)]
pub struct Rational {
    pub num: i32,
    pub den: i32,
}

/// A colour's place in the chromaticity diagram.
#[derive(Debug, Clone, Copy, PartialEq, Eq, Structural)]
pub struct Chromaticity {
    pub x: Rational,
    pub y: Rational,
}

/// The colours and the brightness of the display that a stream was graded on:
/// red, green, blue and white, then the brightest and the darkest level.
#[derive(Debug, Clone, Copy, PartialEq, Eq, Structural)]
pub struct MasteringDisplay {
    pub red: Chromaticity,
    pub green: Chromaticity,
    pub blue: Chromaticity,
    pub white_point: Chromaticity,
    pub max_luminance: Rational,
    pub min_luminance: Rational,
}

/// A colour whose coordinates are in units of 1/50000.
pub open spec fn chromaticity(c: (u16, u16)) -> Chromaticity {
    Chromaticity {
        x: Rational { num: c.0 as i32, den: 50000 },
        y: Rational { num: c.1 as i32, den: 50000 },
    }
}

/// A level in units of 1/10000, the largest that a fraction holds where it is
/// larger.
pub open spec fn luminance(v: u32) -> Rational {
    Rational {
        num: if v > i32::MAX {
            i32::MAX
        } else {
            v as i32
        },
        den: 10000,
    }
}

/// A display as its message describes it, which names green, blue and red in
/// this order.
pub open spec fn display_of(
    green: (u16, u16),
    blue: (u16, u16),
    red: (u16, u16),
    white_point: (u16, u16),
    max_luminance: u32,
    min_luminance: u32,
) -> MasteringDisplay {
    MasteringDisplay {
        red: chromaticity(red),
        green: chromaticity(green),
        blue: chromaticity(blue),
        white_point: chromaticity(white_point),
        max_luminance: luminance(max_luminance),
        min_luminance: luminance(min_luminance),
    }
}

fn to_chromaticity(c: (u16, u16)) -> (r: Chromaticity)
    ensures
        r == chromaticity(c),
{
    Chromaticity {
        x: Rational { num: c.0 as i32, den: 50000 },
        y: Rational { num: c.1 as i32, den: 50000 },
    }
}

fn to_luminance(v: u32) -> (r: Rational)
    ensures
        r == luminance(v),
{
    let num: i32 = if v > 0x7fff_ffff {
        0x7fff_ffff
    } else {
        v as i32
    };
    Rational { num, den: 10000 }
}

/// Reads the display off the fields of its message.
pub fn mastering_display_from_sei(
    primaries_gbr: [(u16, u16); 3],
    white_point: (u16, u16),
    max_luminance: u32,
    min_luminance: u32,
) -> (d: MasteringDisplay)
    ensures
        d == display_of(
            primaries_gbr@[0],
            primaries_gbr@[1],
            primaries_gbr@[2],
            white_point,
            max_luminance,
            min_luminance,
        ),
{
    MasteringDisplay {
        red: to_chromaticity(primaries_gbr[2]),
        green: to_chromaticity(primaries_gbr[0]),
        blue: to_chromaticity(primaries_gbr[1]),
        white_point: to_chromaticity(white_point),
        max_luminance: to_luminance(max_luminance),
        min_luminance: to_luminance(min_luminance),
    }
}

// ------------------------------------------------------------------- messages
/// A supplemental message, as far as decoding passes it on.
#[derive(Debug)]
pub enum SeiMessage {
    /// Closed captions.
    Captions(Vec<u8>),
    /// The display that the stream was graded on.
    Display {
        primaries: [(u16, u16); 3],
        white_point: (u16, u16),
        max_luminance: u32,
        min_luminance: u32,
    },
    /// The brightest sample and the brightest picture average.
    LightLevel { max: u16, average: u16 },
    /// Anything else.
    Other,
}

/// A unit of an access unit.
#[derive(Debug)]
pub enum Unit {
    /// A slice of the primary picture.
    Slice,
    /// Supplemental messages, none where they are malformed.
    Sei(Vec<SeiMessage>),
    /// Anything else, and what has no readable header.
    Other,
}

/// What the messages of an access unit say.
#[verifier::ext_equal]
pub struct Told {
    pub captions: Seq<u8>,
    pub display: Option<MasteringDisplay>,
    pub light: Option<(u32, u32)>,
}

impl Told {
    /// With one more message: captions are joined, of everything else the last
    /// message counts.
    pub open spec fn and(self, m: SeiMessage) -> Told {
        match m {
            SeiMessage::Captions(bytes) => Told { captions: self.captions + bytes@, ..self },
            SeiMessage::Display { primaries, white_point, max_luminance, min_luminance } => Told {
                display: Some(
                    display_of(
                        primaries@[0],
                        primaries@[1],
                        primaries@[2],
                        white_point,
                        max_luminance,
                        min_luminance,
                    ),
                ),
                ..self
            },
            SeiMessage::LightLevel { max, average } => Told {
                light: Some((max as u32, average as u32)),
                ..self
            },
            SeiMessage::Other => self,
        }
    }

    /// With the first `n` of some messages.
    pub open spec fn and_all(self, ms: Seq<SeiMessage>, n: int) -> Told
        decreases n,
    {
        if n <= 0 {
            self
        } else {
            self.and_all(ms, n - 1).and(ms[n - 1])
        }
    }
}

/// What the first `n` units say.
pub open spec fn told(units: Seq<Unit>, n: int) -> Told
    decreases n,
{
    if n <= 0 {
        Told { captions: Seq::empty(), display: None, light: None }
    } else {
        match units[n - 1] {
            Unit::Sei(ms) => told(units, n - 1).and_all(ms@, ms@.len() as int),
            _ => told(units, n - 1),
        }
    }
}

/// Where among the first `n` units the slices are.
pub open spec fn slices(units: Seq<Unit>, n: int) -> Seq<usize>
    decreases n,
{
    if n <= 0 {
        Seq::empty()
    } else if units[n - 1] is Slice {
        slices(units, n - 1).push((n - 1) as usize)
    } else {
        slices(units, n - 1)
    }
}

/// The slice of an access unit and what its messages say.
#[derive(Debug)]
pub struct Gathered {
    pub slice: Option<usize>,
    pub captions: Vec<u8>,
    pub display: Option<MasteringDisplay>,
    pub light: Option<(u32, u32)>,
}

impl Gathered {
    /// What the messages say.
    pub open spec fn told(&self) -> Told {
        Told { captions: self.captions@, display: self.display, light: self.light }
    }

    fn note(&mut self, m: &SeiMessage)
        ensures
            final(self).slice == old(self).slice,
            final(self).told() == old(self).told().and(*m),
    {
        match m {
            SeiMessage::Captions(bytes) => {
                let n: usize = bytes.len();
                for i in 0..n
                    invariant
                        n == bytes@.len(),
                        self.slice == old(self).slice,
                        self.display == old(self).display,
                        self.light == old(self).light,
                        self.captions@ == old(self).captions@ + bytes@.take(i as int),
                {
                    self.captions.push(bytes[i]);
                    assert(self.captions@ =~= old(self).captions@ + bytes@.take(i + 1));
                }
                assert(bytes@.take(n as int) =~= bytes@);
            },
            SeiMessage::Display { primaries, white_point, max_luminance, min_luminance } => {
                self.display = Some(
                    mastering_display_from_sei(
                        *primaries,
                        *white_point,
                        *max_luminance,
                        *min_luminance,
                    ),
                );
            },
            SeiMessage::LightLevel { max, average } => {
                self.light = Some((*max as u32, *average as u32));
            },
            SeiMessage::Other => {},
        }
    }
}

/// Finds the slice of an access unit and collects what its messages say. More
/// than one slice is refused; an access unit without any has nothing to decode.
#[verifier::loop_isolation(false)]
pub fn gather(units: &Vec<Unit>) -> (r: Result<Gathered, Error>)
    ensures
        match r {
            Ok(g) => {
                &&& slices(units@, units@.len() as int) == (match g.slice {
                    Some(i) => seq![i],
                    None => Seq::empty(),
                })
                &&& g.told() == told(units@, units@.len() as int)
            },
            Err(e) => {
                &&& slices(units@, units@.len() as int).len() > 1
                &&& e == Error::Unsupported(Reason::SeveralSlices)
            },
        },
{
    let mut g: Gathered = Gathered { slice: None, captions: Vec::new(), display: None, light: None };
    let mut several: bool = false;
    let n: usize = units.len();
    assert(g.told() =~= told(units@, 0));
    for i in 0..n
        invariant
            n == units@.len(),
            g.told() == told(units@, i as int),
            several == (slices(units@, i as int).len() > 1),
            !several ==> slices(units@, i as int) == (match g.slice {
                Some(k) => seq![k],
                None => Seq::empty(),
            }),
            several ==> g.slice is Some,
    {
        match &units[i] {
            Unit::Slice => {
                if g.slice.is_none() {
                    g.slice = Some(i);
                    assert(slices(units@, i + 1) =~= seq![i]);
                } else {
                    several = true;
                }
            },
            Unit::Sei(ms) => {
                let m: usize = ms.len();
                let ghost before = g.told();
                let ghost slice = g.slice;
                for j in 0..m
                    invariant
                        m == ms@.len(),
                        g.slice == slice,
                        g.told() == before.and_all(ms@, j as int),
                {
                    g.note(&ms[j]);
                }
            },
            Unit::Other => {},
        }
    }
    if several {
        return Err(Error::Unsupported(Reason::SeveralSlices));
    }
    Ok(g)
}

// ----------------------------------------------------------------- parameters
/// The picture parameters that a slice names: the third code behind its header
/// byte.
pub open spec fn pps_id(rbsp: Seq<u8>) -> Result<int, Error> {
    let start = if rbsp.len() >= 1 {
        8int
    } else {
        0int
    };
    match ue(rbsp, start, 0xffff_ffff) {
        Err(e) => Err(e),
        Ok((_, p1)) => match ue(rbsp, p1, 9) {
            Err(e) => Err(e),
            Ok((_, p2)) => match ue(rbsp, p2, 255) {
                Err(e) => Err(e),
                Ok((id, _)) => Ok(id),
            },
        },
    }
}

/// Looks up which picture parameters a slice names, before the rest of its
/// header can be read.
pub fn peek_pps_id(rbsp: &[u8]) -> (r: Result<u8, Error>)
    requires
        8 * rbsp@.len() <= usize::MAX,
    ensures
        match pps_id(rbsp@) {
            Ok(id) => r matches Ok(v) && v == id,
            Err(e) => r matches Err(f) && f == e,
        },
{
    let mut reader = BitReader::new(rbsp);
    reader.skip(8);
    let _first_mb_in_slice: u32 = reader.ue_v(0xffff_ffff)?;
    let _slice_type: u32 = reader.ue_v(9)?;
    let id: u32 = reader.ue_v(255)?;
    proof {
        let p1 = ue(rbsp@, if rbsp@.len() >= 1 { 8int } else { 0int }, 0xffff_ffff)->Ok_0.1;
        let p2 = ue(rbsp@, p1, 9)->Ok_0.1;
        crate::slice_cavlc::lemma_ue_nonnegative(rbsp@, p2, 255);
    }
    Ok(id as u8)
}

} // verus!
