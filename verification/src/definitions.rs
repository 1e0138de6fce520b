//! The definition table: one record per line, `id;r;g;b`, which gives the
//! identifier that a colour stands for.

use crate::error::{FormatError, FormatFault};
use crate::integers::{decimal_u32, decimal_u8, parse_u32, parse_u8};
use crate::text::{find, first_index, lemma_first_index, to_chars, to_string};
use std::collections::HashMap;
use vstd::prelude::*;
use vstd::set_lib::lemma_map_size;

verus! {

broadcast use vstd::std_specs::hash::group_hash_axioms;

/// A colour as its red, green and blue components.
pub type Color = (u8, u8, u8);

/// The lines of `s`. A line ends with a line feed; a carriage return right
/// before that line feed belongs to the line ending. The last line need not
/// be ended, and a text that ends with a line ending has no empty line
/// after it.
pub open spec fn lines(s: Seq<char>) -> Seq<Seq<char>>
    decreases s.len(),
    via lines_decreases
{
    if s.len() == 0 {
        Seq::empty()
    } else {
        let n = first_index(s, '\n');
        if n < s.len() {
            seq![without_carriage_return(s.take(n))] + lines(s.skip(n + 1))
        } else {
            seq![s]
        }
    }
}

#[via_fn]
proof fn lines_decreases(s: Seq<char>) {
    lemma_first_index(s, '\n');
}

/// `s` without the carriage return at its end, if it has one.
pub open spec fn without_carriage_return(s: Seq<char>) -> Seq<char> {
    if s.len() > 0 && s.last() == '\r' {
        s.drop_last()
    } else {
        s
    }
}

/// The fields of a line: the texts between its semicolons. A line without
/// a semicolon is one field.
pub open spec fn fields(s: Seq<char>) -> Seq<Seq<char>>
    decreases s.len(),
    via fields_decreases
{
    let n = first_index(s, ';');
    if n < s.len() {
        seq![s.take(n)] + fields(s.skip(n + 1))
    } else {
        seq![s]
    }
}

#[via_fn]
proof fn fields_decreases(s: Seq<char>) {
    lemma_first_index(s, ';');
}

/// The record that the line number `index` holds: its first field is the
/// identifier, the next three are the colour. Fields after the fourth are
/// not looked at. A line of fewer than four fields is a fault whatever its
/// fields hold; otherwise the first field that is no number of its type is.
pub open spec fn record(line: Seq<char>, index: int) -> Result<(Color, u32), FormatFault> {
    let f = fields(line);
    if f.len() < 4 {
        Err(FormatFault::NotEnoughFields { line: index })
    } else {
        match (decimal_u32(f[0]), decimal_u8(f[1]), decimal_u8(f[2]), decimal_u8(f[3])) {
            (None, _, _, _) => Err(FormatFault::InvalidInteger { token: f[0] }),
            (Some(_), None, _, _) => Err(FormatFault::InvalidByte { token: f[1] }),
            (Some(_), Some(_), None, _) => Err(FormatFault::InvalidByte { token: f[2] }),
            (Some(_), Some(_), Some(_), None) => Err(FormatFault::InvalidByte { token: f[3] }),
            (Some(id), Some(r), Some(g), Some(b)) => Ok(((r, g, b), id)),
        }
    }
}

/// The records of `lines`, numbered from `index`, added to `found` one
/// after the other. A colour that occurs again takes the later identifier.
pub open spec fn table_from(lines: Seq<Seq<char>>, index: int, found: Map<Color, u32>) -> Result<
    Map<Color, u32>,
    FormatFault,
>
    decreases lines.len(),
{
    if lines.len() == 0 {
        Ok(found)
    } else {
        match record(lines[0], index) {
            Err(fault) => Err(fault),
            Ok((color, id)) => table_from(lines.drop_first(), index + 1, found.insert(color, id)),
        }
    }
}

/// The table that the text `s` defines, or the fault of its first bad line.
pub open spec fn province_definitions(s: Seq<char>) -> Result<Map<Color, u32>, FormatFault> {
    table_from(lines(s), 0, Map::empty())
}

/// The key under which a colour is stored: its components as the three
/// bytes of a number.
pub open spec fn color_code(c: Color) -> u32 {
    (c.0 * 65536 + c.1 * 256 + c.2) as u32
}

/// The colour that a key stands for.
pub open spec fn code_color(code: u32) -> Color {
    ((code / 65536) as u8, (code / 256 % 256) as u8, (code % 256) as u8)
}

/// A mapping from colours to identifiers.
pub struct DefinitionTable {
    ids: HashMap<u32, u32>,
}

impl View for DefinitionTable {
    type V = Map<Color, u32>;

    closed spec fn view(&self) -> Map<Color, u32> {
        Map::new(
            |c: Color| self.ids@.contains_key(color_code(c)),
            |c: Color| self.ids@[color_code(c)],
        )
    }
}

impl DefinitionTable {
    #[verifier::type_invariant]
    spec fn keys_are_codes(self) -> bool {
        forall|k: u32| self.ids@.contains_key(k) ==> k < 0x100_0000
    }

    /// A table without entries.
    pub fn new() -> (table: DefinitionTable)
        ensures
            table@ == Map::<Color, u32>::empty(),
    {
        DefinitionTable { ids: HashMap::new() }
    }

    /// The number of colours that have an identifier.
    pub fn len(&self) -> (n: usize)
        ensures
            n == self@.len(),
    {
        proof {
            use_type_invariant(self);
            let codes = self.ids@.dom();
            let unpack = |k: u32| code_color(k);
            assert(codes.map(unpack) =~= self@.dom()) by {
                assert forall|c: Color| self@.dom().contains(c) implies codes.map(unpack).contains(
                    c,
                ) by {
                    assert(codes.contains(color_code(c)) && unpack(color_code(c)) == c);
                }
                assert forall|c: Color| codes.map(unpack).contains(c) implies self@.dom().contains(
                    c,
                ) by {
                    let k = choose|k: u32| codes.contains(k) && unpack(k) == c;
                    assert(color_code(c) == k);
                }
            }
            assert(vstd::relations::injective_on(unpack, codes)) by {
                assert forall|a: u32, b: u32|
                    codes.contains(a) && codes.contains(b) && unpack(a) == unpack(
                        b,
                    ) implies a == b by {
                    assert(color_code(code_color(a)) == a && color_code(code_color(b)) == b);
                }
            }
            lemma_map_size(codes, self@.dom(), unpack);
        }
        self.ids.len()
    }

    /// The identifier of `color`, where it has one.
    pub fn get(&self, color: [u8; 3]) -> (id: Option<u32>)
        ensures
            id == self@.get((color[0], color[1], color[2])),
    {
        let code: u32 = (color[0] as u32) * 65536 + (color[1] as u32) * 256 + (color[2] as u32);
        match self.ids.get(&code) {
            Some(id) => Some(*id),
            None => None,
        }
    }

    /// Gives `color` the identifier `id`, in place of the one it may have
    /// had, which is returned.
    pub fn insert(&mut self, color: [u8; 3], id: u32) -> (previous: Option<u32>)
        ensures
            final(self)@ == old(self)@.insert((color[0], color[1], color[2]), id),
            previous == old(self)@.get((color[0], color[1], color[2])),
    {
        proof {
            use_type_invariant(&*self);
        }
        let code: u32 = (color[0] as u32) * 65536 + (color[1] as u32) * 256 + (color[2] as u32);
        let mut taken = DefinitionTable { ids: HashMap::new() };
        std::mem::swap(self, &mut taken);
        let mut ids = taken.ids;
        let previous = ids.insert(code, id);
        *self = DefinitionTable { ids };
        proof {
            let c = (color[0], color[1], color[2]);
            assert forall|d: Color| color_code(d) == code implies d == c by {
                assert(code_color(color_code(d)) == d && code_color(color_code(c)) == c);
            }
        }
        previous
    }
}

/// The first line of `input`, split off the text that follows its line
/// ending; `None` where `input` is empty.
fn next_line<'a>(input: &'a [char]) -> (r: Option<(&'a [char], &'a [char])>)
    ensures
        match r {
            Some((line, rest)) => {
                &&& lines(input@) == seq![line@] + lines(rest@)
                &&& rest@.len() < input@.len()
            },
            None => input@.len() == 0,
        },
{
    if input.len() == 0 {
        return None;
    }
    match find(input, '\n') {
        Some(n) => {
            let ended = n > 0 && input[n - 1] == '\r';
            let end = if ended {
                n - 1
            } else {
                n
            };
            assert(input@.subrange(0, end as int) == without_carriage_return(
                input@.take(n as int),
            ));
            Some((&input[0..end], &input[n + 1..input.len()]))
        },
        None => Some((input, &input[0..0])),
    }
}

/// The first field of `input`, and the text after the semicolon that ends
/// it, where there is one.
fn next_field<'a>(input: &'a [char]) -> (r: (&'a [char], Option<&'a [char]>))
    ensures
        match r.1 {
            Some(rest) => fields(input@) == seq![r.0@] + fields(rest@),
            None => fields(input@) == seq![r.0@],
        },
{
    match find(input, ';') {
        Some(n) => {
            assert(n < input.len());
            (&input[0..n], Some(&input[n + 1..input.len()]))
        },
        None => (input, None),
    }
}

/// Reads the record that `line`, the line number `index`, holds.
pub fn parse_record(line: &[char], index: usize) -> (r: Result<([u8; 3], u32), FormatError>)
    ensures
        match (r, record(line@, index as int)) {
            (Ok((color, id)), Ok((c, i))) => (color[0], color[1], color[2]) == c && id == i,
            (Err(e), Err(f)) => e@ == f,
            _ => false,
        },
{
    let (first, rest) = next_field(line);
    let (second, rest) = match rest {
        Some(rest) => next_field(rest),
        None => {
            return Err(FormatError::NotEnoughFields { line: index });
        },
    };
    let (third, rest) = match rest {
        Some(rest) => next_field(rest),
        None => {
            return Err(FormatError::NotEnoughFields { line: index });
        },
    };
    let (fourth, _) = match rest {
        Some(rest) => next_field(rest),
        None => {
            return Err(FormatError::NotEnoughFields { line: index });
        },
    };
    let id = match parse_u32(first) {
        Some(id) => id,
        None => {
            return Err(FormatError::InvalidInteger { token: to_string(first) });
        },
    };
    let r = match parse_u8(second) {
        Some(r) => r,
        None => {
            return Err(FormatError::InvalidByte { token: to_string(second) });
        },
    };
    let g = match parse_u8(third) {
        Some(g) => g,
        None => {
            return Err(FormatError::InvalidByte { token: to_string(third) });
        },
    };
    let b = match parse_u8(fourth) {
        Some(b) => b,
        None => {
            return Err(FormatError::InvalidByte { token: to_string(fourth) });
        },
    };
    Ok(([r, g, b], id))
}

/// Reads the records of `input` into a table.
pub fn scan_definitions(input: &[char]) -> (r: Result<DefinitionTable, FormatError>)
    ensures
        match (r, province_definitions(input@)) {
            (Ok(table), Ok(t)) => table@ == t,
            (Err(e), Err(f)) => e@ == f,
            _ => false,
        },
{
    let mut table = DefinitionTable::new();
    let mut rest: &[char] = input;
    let mut index: usize = 0;
    assert(input@.len() == input.len());
    loop
        invariant
            province_definitions(input@) == table_from(lines(rest@), index as int, table@),
            index + rest@.len() <= input@.len() <= usize::MAX,
        decreases rest@.len(),
    {
        let (line, tail) = match next_line(rest) {
            Some(parts) => parts,
            None => {
                return Ok(table);
            },
        };
        proof {
            let all = seq![line@] + lines(tail@);
            assert(all.drop_first() == lines(tail@));
        }
        match parse_record(line, index) {
            Err(fault) => {
                return Err(fault);
            },
            Ok((color, id)) => {
                table.insert(color, id);
            },
        }
        rest = tail;
        index += 1;
    }
}

/// Reads the definition table that `text` holds: one record per line, its
/// fields separated by `;`, the identifier first and the three components
/// of the colour after it. Where a colour stands on several lines, the
/// identifier of the last of them is the one the table gives.
pub fn parse_province_definitions(text: &str) -> (r: Result<DefinitionTable, FormatError>)
    ensures
        match (r, province_definitions(text@)) {
            (Ok(table), Ok(t)) => table@ == t,
            (Err(e), Err(f)) => e@ == f,
            _ => false,
        },
{
    let chars = to_chars(text);
    scan_definitions(chars.as_slice())
}

} // verus!
