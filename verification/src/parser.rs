//! The transpiler: a two-phase line parser (header, then body) that checks a
//! replay description and re-encodes it as one packed output string.

use vstd::prelude::*;
use vstd::string::*;
use crate::digits::{parse_uint_capped, spec_parse_uint};
use crate::encode::{build_output, spec_output};
use crate::movement::{accumulate_movement, spec_movement_bits};
use crate::text::{tokenize, tokens_of};

verus! {

/// A parse failure, carrying the 0-based number of the line where it was
/// detected.
#[derive(Debug, PartialEq, Eq, Structural, Clone, Copy)]
pub enum ParseError {
    /// A numeric token (level or frame) failed to parse as its integer type.
    ConversionError(usize),
    /// A `level` or `username` header line lacked its value token, or the
    /// input ended before both header fields were set (then the carried
    /// number is the count of input lines).
    HeaderError(usize),
    /// An unrecognized header keyword, an unrecognized movement keyword, or
    /// a body line with fewer than two tokens.
    UnexpectedTokenError(usize),
    /// A body line's frame number was not strictly greater than every frame
    /// accepted before it.
    FrameError(usize),
}

/// The parser's state between lines: the header fields seen so far, whether
/// the one-way switch to the body phase has happened, the largest frame
/// accepted so far, and the accepted records in input order.
pub struct SpecParseState {
    pub at_body: bool,
    pub username: Option<Seq<char>>,
    pub level: Option<u8>,
    pub max_frame: u32,
    pub records: Seq<(u32, u8)>,
}

/// The state before any line: no header field set, header phase, no records,
/// and a running maximum frame of zero (so a first frame of zero fails).
pub open spec fn init_state() -> SpecParseState {
    SpecParseState {
        at_body: false,
        username: None,
        level: None,
        max_frame: 0,
        records: Seq::empty(),
    }
}

/// The one-way phase switch, evaluated once after each header line: once
/// both fields are set, all further lines are body lines.
pub open spec fn promoted(st: SpecParseState) -> SpecParseState {
    if st.username is Some && st.level is Some {
        SpecParseState { at_body: true, ..st }
    } else {
        st
    }
}

/// One header-phase line: the first token must be `level` or `username`, the
/// second is the field's value; a repeat overwrites the earlier value.
pub open spec fn spec_header_step(
    st: SpecParseState,
    toks: Seq<Seq<char>>,
    line_num: int,
) -> Result<SpecParseState, ParseError>
    recommends
        toks.len() > 0,
{
    if toks[0] == "level"@ {
        if toks.len() < 2 {
            Err(ParseError::HeaderError(line_num as usize))
        } else {
            match spec_parse_uint(toks[1], 255) {
                Some(v) => Ok(promoted(SpecParseState { level: Some(v as u8), ..st })),
                None => Err(ParseError::ConversionError(line_num as usize)),
            }
        }
    } else if toks[0] == "username"@ {
        if toks.len() < 2 {
            Err(ParseError::HeaderError(line_num as usize))
        } else {
            Ok(promoted(SpecParseState { username: Some(toks[1]), ..st }))
        }
    } else {
        Err(ParseError::UnexpectedTokenError(line_num as usize))
    }
}

/// One body-phase line: a frame token strictly above the running maximum,
/// then at least one movement keyword.
pub open spec fn spec_body_step(
    st: SpecParseState,
    toks: Seq<Seq<char>>,
    line_num: int,
) -> Result<SpecParseState, ParseError>
    recommends
        toks.len() > 0,
{
    if toks.len() < 2 {
        Err(ParseError::UnexpectedTokenError(line_num as usize))
    } else {
        match spec_parse_uint(toks[0], u32::MAX as nat) {
            None => Err(ParseError::ConversionError(line_num as usize)),
            Some(frame) => {
                if frame <= st.max_frame {
                    Err(ParseError::FrameError(line_num as usize))
                } else {
                    match spec_movement_bits(toks.skip(1)) {
                        None => Err(ParseError::UnexpectedTokenError(line_num as usize)),
                        Some(bits) => Ok(
                            SpecParseState {
                                max_frame: frame as u32,
                                records: st.records.push((frame as u32, bits)),
                                ..st
                            },
                        ),
                    }
                }
            },
        }
    }
}

/// One input line: a blank line is skipped in either phase; otherwise the
/// line is read by the phase the state is in.
pub open spec fn spec_line_step(st: SpecParseState, line: Seq<char>, line_num: int) -> Result<
    SpecParseState,
    ParseError,
> {
    if tokens_of(line).len() == 0 {
        Ok(st)
    } else if st.at_body {
        spec_body_step(st, tokens_of(line), line_num)
    } else {
        spec_header_step(st, tokens_of(line), line_num)
    }
}

/// The fold of `spec_line_step` over `lines[i..]`, failing fast on the first
/// offending line.
pub open spec fn spec_parse_from(
    lines: Seq<Seq<char>>,
    i: int,
    st: SpecParseState,
) -> Result<SpecParseState, ParseError>
    decreases lines.len() - i,
{
    if i < 0 || i >= lines.len() {
        Ok(st)
    } else {
        match spec_line_step(st, lines[i], i) {
            Ok(st2) => spec_parse_from(lines, i + 1, st2),
            Err(e) => Err(e),
        }
    }
}

/// The whole parse of a line sequence, from the initial state.
pub open spec fn spec_parse(lines: Seq<Seq<char>>) -> Result<SpecParseState, ParseError> {
    spec_parse_from(lines, 0, init_state())
}

/// What transpiling a sequence of input lines yields: the packed output of
/// the parsed replay, or the error of the first offending line. A stream
/// that ends before both header fields are set fails with `HeaderError`
/// carrying the count of lines.
pub open spec fn spec_transpile(lines: Seq<Seq<char>>) -> Result<Seq<char>, ParseError> {
    match spec_parse(lines) {
        Err(e) => Err(e),
        Ok(st) => match (st.username, st.level) {
            (Some(u), Some(l)) => Ok(spec_output(u, l, st.records)),
            _ => Err(ParseError::HeaderError(lines.len() as usize)),
        },
    }
}

/// Transpiling is a pure function of the line sequence alone: identical
/// input yields an identical outcome, success or failure alike.
pub proof fn lemma_transpile_deterministic(a: Seq<Seq<char>>, b: Seq<Seq<char>>)
    requires
        a == b,
    ensures
        spec_transpile(a) == spec_transpile(b),
{
}

/// The records' frame numbers are strictly increasing in input order.
pub open spec fn frames_strictly_increasing(recs: Seq<(u32, u8)>) -> bool {
    forall|i: int, j: int| 0 <= i < j < recs.len() ==> recs[i].0 < recs[j].0
}

spec fn state_wf(st: SpecParseState) -> bool {
    &&& frames_strictly_increasing(st.records)
    &&& forall|i: int| 0 <= i < st.records.len() ==> st.records[i].0 <= st.max_frame
}

proof fn lemma_step_preserves_wf(st: SpecParseState, line: Seq<char>, line_num: int)
    requires
        state_wf(st),
    ensures
        spec_line_step(st, line, line_num) matches Ok(st2) ==> state_wf(st2),
{
    match spec_line_step(st, line, line_num) {
        Ok(st2) => {
            if tokens_of(line).len() > 0 && st.at_body {
                let recs = st2.records;
                assert forall|i: int, j: int| 0 <= i < j < recs.len() implies recs[i].0
                    < recs[j].0 by {
                    if j < recs.len() - 1 {
                        assert(st.records[i].0 < st.records[j].0);
                    } else {
                        assert(recs[i].0 <= st.max_frame);
                    }
                }
                assert forall|i: int| 0 <= i < recs.len() implies recs[i].0 <= st2.max_frame by {
                    if i < recs.len() - 1 {
                        assert(st.records[i].0 <= st.max_frame);
                    }
                }
            }
        },
        Err(_) => {},
    }
}

proof fn lemma_parse_from_wf(lines: Seq<Seq<char>>, i: int, st: SpecParseState)
    requires
        state_wf(st),
    ensures
        spec_parse_from(lines, i, st) matches Ok(st2) ==> state_wf(st2),
    decreases lines.len() - i,
{
    if 0 <= i < lines.len() {
        match spec_line_step(st, lines[i], i) {
            Ok(st2) => {
                lemma_step_preserves_wf(st, lines[i], i);
                lemma_parse_from_wf(lines, i + 1, st2);
            },
            Err(_) => {},
        }
    }
}

/// Frame monotonicity, first half: whenever the parse succeeds, the frame
/// numbers of the accepted records are strictly increasing in input order.
pub proof fn lemma_frames_strictly_increasing(lines: Seq<Seq<char>>)
    ensures
        spec_parse(lines) matches Ok(st) ==> frames_strictly_increasing(st.records),
{
    lemma_parse_from_wf(lines, 0, init_state());
}

/// Frame monotonicity, second half: a body line whose frame number is not
/// strictly greater than the running maximum fails with `FrameError` at that
/// line.
pub proof fn lemma_non_increasing_frame_fails(st: SpecParseState, line: Seq<char>, line_num: int)
    requires
        st.at_body,
        tokens_of(line).len() >= 2,
        spec_parse_uint(tokens_of(line)[0], u32::MAX as nat) matches Some(f) && f <= st.max_frame,
    ensures
        spec_line_step(st, line, line_num) == Err::<SpecParseState, ParseError>(
            ParseError::FrameError(line_num as usize),
        ),
{
}

/// The runtime parser state; its view is the specification state.
pub struct ParseState {
    pub at_body: bool,
    pub username: Option<String>,
    pub level: Option<u8>,
    pub max_frame: u32,
    pub records: Vec<(u32, u8)>,
}

impl View for ParseState {
    type V = SpecParseState;

    open spec fn view(&self) -> SpecParseState {
        SpecParseState {
            at_body: self.at_body,
            username: match self.username {
                Some(u) => Some(u@),
                None => None,
            },
            level: self.level,
            max_frame: self.max_frame,
            records: self.records@,
        }
    }
}

impl ParseState {
    pub fn new() -> (st: ParseState)
        ensures
            st@ == init_state(),
    {
        ParseState {
            at_body: false,
            username: None,
            level: None,
            max_frame: 0,
            records: Vec::new(),
        }
    }

    /// Processes one input line, exactly as `spec_line_step` describes: on
    /// an error the caller abandons the state.
    pub fn step(&mut self, line: &str, line_num: usize) -> (r: Result<(), ParseError>)
        ensures
            match r {
                Ok(()) => spec_line_step(old(self)@, line@, line_num as int) == Ok::<
                    SpecParseState,
                    ParseError,
                >(final(self)@),
                Err(e) => spec_line_step(old(self)@, line@, line_num as int) == Err::<
                    SpecParseState,
                    ParseError,
                >(e),
            },
    {
        let tokens = tokenize(line);
        let ghost toks = tokens@.map_values(|t: String| t@);
        if tokens.len() == 0 {
            return Ok(());
        }
        if self.at_body {
            if tokens.len() < 2 {
                return Err(ParseError::UnexpectedTokenError(line_num));
            }
            let frame: u32;
            match parse_uint_capped(tokens[0].as_str(), u32::MAX) {
                Some(f) => {
                    frame = f;
                },
                None => {
                    return Err(ParseError::ConversionError(line_num));
                },
            }
            proof {
                assert(toks[0] == tokens@[0]@);
            }
            if frame <= self.max_frame {
                return Err(ParseError::FrameError(line_num));
            }
            let bits: u8;
            match accumulate_movement(&tokens, 1) {
                Some(b) => {
                    bits = b;
                },
                None => {
                    return Err(ParseError::UnexpectedTokenError(line_num));
                },
            }
            self.max_frame = frame;
            self.records.push((frame, bits));
            proof {
                assert(toks.skip(1) == tokens@.map_values(|t: String| t@).skip(1));
                assert(self@.records == old(self)@.records.push((frame, bits)));
            }
            Ok(())
        } else {
            proof {
                assert(toks[0] == tokens@[0]@);
            }
            if tokens[0] == String::from_str("level") {
                if tokens.len() < 2 {
                    return Err(ParseError::HeaderError(line_num));
                }
                proof {
                    assert(toks[1] == tokens@[1]@);
                }
                match parse_uint_capped(tokens[1].as_str(), 255) {
                    Some(v) => {
                        self.level = Some(v as u8);
                    },
                    None => {
                        return Err(ParseError::ConversionError(line_num));
                    },
                }
            } else if tokens[0] == String::from_str("username") {
                if tokens.len() < 2 {
                    return Err(ParseError::HeaderError(line_num));
                }
                proof {
                    assert(toks[1] == tokens@[1]@);
                }
                self.username = Some(tokens[1].clone());
            } else {
                return Err(ParseError::UnexpectedTokenError(line_num));
            }
            if self.username.is_some() && self.level.is_some() {
                self.at_body = true;
            }
            Ok(())
        }
    }
}

/// Transpiles the input lines: validates the header block, re-encodes the
/// body records, and packs them into one length-prefixed string — or
/// reports the first offending line, exactly as `spec_transpile` describes.
pub fn transpile(lines: &Vec<String>) -> (r: Result<String, ParseError>)
    ensures
        match r {
            Ok(out) => spec_transpile(lines@.map_values(|l: String| l@)) == Ok::<
                Seq<char>,
                ParseError,
            >(out@),
            Err(e) => spec_transpile(lines@.map_values(|l: String| l@)) == Err::<
                Seq<char>,
                ParseError,
            >(e),
        },
{
    let ghost ls = lines@.map_values(|l: String| l@);
    let mut st = ParseState::new();
    let mut i: usize = 0;
    while i < lines.len()
        invariant
            i <= lines@.len(),
            ls == lines@.map_values(|l: String| l@),
            ls.len() == lines@.len(),
            spec_parse_from(ls, 0, init_state()) == spec_parse_from(ls, i as int, st@),
        decreases lines@.len() - i,
    {
        let ghost prev = st@;
        let r = st.step(lines[i].as_str(), i);
        proof {
            assert(ls[i as int] == lines@[i as int]@);
        }
        match r {
            Ok(()) => {
                proof {
                    assert(spec_parse_from(ls, i as int, prev) == spec_parse_from(
                        ls,
                        i as int + 1,
                        st@,
                    ));
                }
            },
            Err(e) => {
                proof {
                    assert(spec_parse_from(ls, i as int, prev) == Err::<
                        SpecParseState,
                        ParseError,
                    >(e));
                }
                return Err(e);
            },
        }
        i = i + 1;
    }
    proof {
        assert(spec_parse_from(ls, ls.len() as int, st@) == Ok::<SpecParseState, ParseError>(st@));
    }
    let ParseState { username, level, records, .. } = st;
    match (username, level) {
        (Some(u), Some(l)) => {
            let out = build_output(&u, l, &records);
            Ok(out)
        },
        _ => Err(ParseError::HeaderError(lines.len())),
    }
}

} // verus!
