//! The text form of a trace: one record to a line, as an access kind, a hexadecimal
//! address and, optionally, a size.

use crate::cache::Cache;
use crate::number::{hex_u64, parse_hex_u64};
use crate::trace::{AccessKind, Record};
use vstd::prelude::*;

verus! {

/// The blank.
pub const BLANK: u8 = 0x20;

/// The horizontal tab, the first of the five control characters that count as white
/// space.
pub const TAB: u8 = 0x09;

/// The carriage return, the last of the five control characters that count as white
/// space.
pub const CARRIAGE_RETURN: u8 = 0x0d;

/// The comma.
pub const COMMA: u8 = 0x2c;

/// The letter `I`.
pub const LETTER_I: u8 = 0x49;

/// The letter `L`.
pub const LETTER_L: u8 = 0x4c;

/// The letter `M`.
pub const LETTER_M: u8 = 0x4d;

/// The letter `S`.
pub const LETTER_S: u8 = 0x53;

/// Why a line of a trace is no record.
#[derive(Clone, Copy, Debug, PartialEq, Eq)]
pub enum TraceError {
    /// The line does not consist of a kind, an address and at most a size, or its
    /// address is not hexadecimal.
    Format,
    /// The kind is none of `I`, `L`, `S` and `M`.
    UnknownAccessKind,
}

/// What separates the fields of a text.
#[derive(Clone, Copy, Debug, PartialEq, Eq)]
pub enum Separator {
    /// A blank, a tab, a line feed, a vertical tab, a form feed or a carriage return.
    Space,
    /// A comma.
    Comma,
}

impl Separator {
    /// `c` is a separator of this kind.
    pub open spec fn splits_at(self, c: u8) -> bool {
        match self {
            Separator::Space => c == BLANK || TAB <= c <= CARRIAGE_RETURN,
            Separator::Comma => c == COMMA,
        }
    }

    /// Tells whether `c` is a separator of this kind.
    pub fn test(self, c: u8) -> (yes: bool)
        ensures
            yes == self.splits_at(c),
    {
        match self {
            Separator::Space => c == BLANK || (TAB <= c && c <= CARRIAGE_RETURN),
            Separator::Comma => c == COMMA,
        }
    }
}

/// The fields of `text`: what stands before, between and after its separators. A text
/// with `n` separators has `n + 1` fields, some of which may be empty.
pub open spec fn fields(text: Seq<u8>, sep: Separator) -> Seq<Seq<u8>>
    decreases text.len(),
{
    if text.len() == 0 {
        seq![Seq::empty()]
    } else {
        let before = fields(text.drop_last(), sep);
        if sep.splits_at(text.last()) {
            before.push(Seq::empty())
        } else {
            before.drop_last().push(before.last().push(text.last()))
        }
    }
}

/// The comma-separated fields of each piece that is not empty, all in one sequence.
pub open spec fn tokens_of(pieces: Seq<Seq<u8>>) -> Seq<Seq<u8>>
    decreases pieces.len(),
{
    if pieces.len() == 0 {
        Seq::empty()
    } else if pieces.last().len() == 0 {
        tokens_of(pieces.drop_last())
    } else {
        tokens_of(pieces.drop_last()) + fields(pieces.last(), Separator::Comma)
    }
}

/// The tokens of a line: its words, which are what white space separates, each split
/// at its commas.
pub open spec fn tokens(line: Seq<u8>) -> Seq<Seq<u8>> {
    tokens_of(fields(line, Separator::Space))
}

/// The access kind that `token` names.
pub open spec fn kind_of(token: Seq<u8>) -> Option<AccessKind> {
    if token == seq![LETTER_I] {
        Some(AccessKind::Instruction)
    } else if token == seq![LETTER_L] {
        Some(AccessKind::Load)
    } else if token == seq![LETTER_S] {
        Some(AccessKind::Store)
    } else if token == seq![LETTER_M] {
        Some(AccessKind::Modify)
    } else {
        None
    }
}

/// What a line of a trace says. A line without tokens says nothing. Any other line
/// has two or three tokens: the kind, the address, and a size that is not looked at.
/// The address is judged before the kind.
pub open spec fn record_of(line: Seq<u8>) -> Result<Option<Record>, TraceError> {
    let parts = tokens(line);
    if parts.len() == 0 {
        Ok(None)
    } else if parts.len() != 2 && parts.len() != 3 {
        Err(TraceError::Format)
    } else {
        match hex_u64(parts[1]) {
            None => Err(TraceError::Format),
            Some(address) => match kind_of(parts[0]) {
                None => Err(TraceError::UnknownAccessKind),
                Some(kind) => Ok(Some(Record { kind, address })),
            },
        }
    }
}

/// The contents of each of `parts`.
pub open spec fn contents(parts: Seq<Vec<u8>>) -> Seq<Seq<u8>> {
    parts.map_values(|part: Vec<u8>| part@)
}

/// Splits `text` into its fields.
pub fn split(text: &[u8], sep: Separator) -> (parts: Vec<Vec<u8>>)
    ensures
        contents(parts@) == fields(text@, sep),
{
    let mut parts: Vec<Vec<u8>> = Vec::new();
    let mut field: Vec<u8> = Vec::new();
    let mut i: usize = 0;
    while i < text.len()
        invariant
            i <= text.len(),
            contents(parts@).push(field@) == fields(text@.take(i as int), sep),
        decreases text.len() - i,
    {
        proof {
            assert(text@.take(i + 1).drop_last() =~= text@.take(i as int));
        }
        let c: u8 = text[i];
        if sep.test(c) {
            parts.push(field);
            field = Vec::new();
        } else {
            field.push(c);
        }
        i += 1;
    }
    proof {
        assert(text@.take(i as int) =~= text@);
    }
    parts.push(field);
    parts
}

/// Splits a line into its tokens.
pub fn tokenize(line: &[u8]) -> (parts: Vec<Vec<u8>>)
    ensures
        contents(parts@) == tokens(line@),
{
    let pieces = split(line, Separator::Space);
    let mut parts: Vec<Vec<u8>> = Vec::new();
    let mut i: usize = 0;
    while i < pieces.len()
        invariant
            i <= pieces.len(),
            contents(parts@) == tokens_of(contents(pieces@).take(i as int)),
        decreases pieces.len() - i,
    {
        proof {
            let upto = contents(pieces@).take(i + 1);
            assert(upto.drop_last() =~= contents(pieces@).take(i as int));
        }
        if pieces[i].len() > 0 {
            let mut found = split(pieces[i].as_slice(), Separator::Comma);
            parts.append(&mut found);
        }
        i += 1;
    }
    proof {
        assert(contents(pieces@).take(i as int) =~= contents(pieces@));
    }
    parts
}

/// Reads an access kind.
pub fn parse_kind(token: &[u8]) -> (kind: Option<AccessKind>)
    ensures
        kind == kind_of(token@),
{
    if token.len() != 1 {
        return None;
    }
    assert(token@ =~= seq![token@[0]]);
    let letter: u8 = token[0];
    if letter == LETTER_I {
        Some(AccessKind::Instruction)
    } else if letter == LETTER_L {
        Some(AccessKind::Load)
    } else if letter == LETTER_S {
        Some(AccessKind::Store)
    } else if letter == LETTER_M {
        Some(AccessKind::Modify)
    } else {
        None
    }
}

/// Reads one line of a trace: the record that it holds, `None` for a blank line, or
/// why the line is no record.
pub fn parse_line(line: &[u8]) -> (parsed: Result<Option<Record>, TraceError>)
    ensures
        parsed == record_of(line@),
{
    let parts = tokenize(line);
    if parts.len() == 0 {
        return Ok(None);
    }
    if parts.len() != 2 && parts.len() != 3 {
        return Err(TraceError::Format);
    }
    let address: u64 = match parse_hex_u64(parts[1].as_slice()) {
        Some(address) => address,
        None => {
            return Err(TraceError::Format);
        },
    };
    match parse_kind(parts[0].as_slice()) {
        Some(kind) => Ok(Some(Record { kind, address })),
        None => Err(TraceError::UnknownAccessKind),
    }
}

impl Cache {
    /// Reads one line of a trace and replays the record that it holds. A line that is
    /// no record leaves the cache as it was. The counters are 32 bits wide, and the new
    /// counts have to fit.
    pub fn feed_line(&mut self, line: &[u8]) -> (fed: Result<(), TraceError>)
        requires
            old(self).wf(),
            record_of(line@) matches Ok(Some(record)) ==> {
                &&& old(self)@.after_record(record).hits <= u32::MAX
                &&& old(self)@.after_record(record).misses <= u32::MAX
            },
        ensures
            final(self).wf(),
            match record_of(line@) {
                Ok(Some(record)) => fed == Ok::<(), TraceError>(()) && final(self)@ == old(
                    self,
                )@.after_record(record),
                Ok(None) => fed == Ok::<(), TraceError>(()) && final(self)@ == old(self)@,
                Err(fault) => fed == Err::<(), TraceError>(fault) && final(self)@ == old(self)@,
            },
    {
        match parse_line(line) {
            Ok(Some(record)) => {
                self.apply(record);
                Ok(())
            },
            Ok(None) => Ok(()),
            Err(fault) => Err(fault),
        }
    }
}

} // verus!
