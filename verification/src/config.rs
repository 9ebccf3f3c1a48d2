//! The game's settings file and the monitor that it prefers.

use vstd::prelude::*;
use vstd::slice::slice_subrange;
use vstd::string::StringSliceAdditionalSpecFns;
use vstd::utf8::valid_utf8;
use crate::number::{
    all_digits, decimal_value, lemma_leading_digits, parse_usize, parsed_usize, NumberError,
};
use crate::search::{
    contains, contains_bytes, find_last, last_occurrence, lemma_last_occurrence_is,
    lemma_last_occurrence_occurs, occurs_at,
};

verus! {

/// Where the game keeps its settings, as the names to follow from the user's
/// documents directory down to the file:
/// `My Games/Path of Exile/production_Config.ini`.
pub open spec fn config_path_below_documents() -> Seq<Seq<char>> {
    seq!["My Games"@, "Path of Exile"@, "production_Config.ini"@]
}

/// Lists the names that lead from the user's documents directory to the
/// game's settings file, outermost first.
pub fn poe_config_path_components() -> (components: Vec<&'static str>)
    ensures
        components@.map_values(|name: &'static str| name@) == config_path_below_documents(),
{
    let mut components: Vec<&'static str> = Vec::new();
    components.push("My Games");
    components.push("Path of Exile");
    components.push("production_Config.ini");
    components
}

/// The key of the settings line that names the display adapter.
pub open spec fn adapter_marker() -> Seq<u8> {
    "adapter_name".spec_bytes()
}

/// What stands before the monitor number on that line.
pub open spec fn field_open() -> Seq<u8> {
    "(#".spec_bytes()
}

/// What stands behind the monitor number on that line.
pub open spec fn field_close() -> Seq<u8> {
    ")".spec_bytes()
}

/// The text between the last `(#` of `line` and its last `)`, where the line
/// holds both and the `)` does not stand before the end of the `(#`.
pub open spec fn monitor_field(line: Seq<u8>) -> Option<Seq<u8>> {
    match (last_occurrence(line, field_open()), last_occurrence(line, field_close())) {
        (Some(start), Some(end)) if start + field_open().len() <= end => Some(
            line.subrange(start + field_open().len(), end),
        ),
        _ => None,
    }
}

/// The monitor that an adapter line prefers: none where the line has no
/// monitor field, else the number in the field, which must be one.
pub open spec fn line_monitor_number(line: Seq<u8>) -> Result<Option<usize>, NumberError> {
    match monitor_field(line) {
        None => Ok(None),
        Some(field) => match parsed_usize(field) {
            Ok(number) => Ok(Some(number)),
            Err(error) => Err(error),
        },
    }
}

/// Reads the preferred monitor off one adapter line of the settings, such as
/// `adapter_name=AMD Radeon RX 5700 XT(#0)`.
pub fn active_monitor_number_in_line(line: &[u8]) -> (number: Result<Option<usize>, NumberError>)
    ensures
        number == line_monitor_number(line@),
{
    let open = "(#".as_bytes();
    let start = match find_last(line, open) {
        Some(start) => start,
        None => { return Ok(None); },
    };
    let end = match find_last(line, ")".as_bytes()) {
        Some(end) => end,
        None => { return Ok(None); },
    };
    proof {
        lemma_last_occurrence_occurs(line@, field_open());
        lemma_last_occurrence_occurs(line@, field_close());
    }
    if end < start || end - start < open.len() {
        return Ok(None);
    }
    let from = start + open.len();
    let field = slice_subrange(line, from, end);
    match parse_usize(field) {
        Ok(number) => Ok(Some(number)),
        Err(error) => Err(error),
    }
}

/// The number of bytes of `content` before its first line feed, or all of them
/// where it has none.
pub open spec fn first_line_len(content: Seq<u8>) -> nat
    decreases content.len(),
{
    if content.len() == 0 || content[0] == '\n' as u8 {
        0
    } else {
        1 + first_line_len(content.drop_first())
    }
}

/// `line` without the carriage return that it may end with.
pub open spec fn without_carriage_return(line: Seq<u8>) -> Seq<u8> {
    if line.len() > 0 && line.last() == '\r' as u8 {
        line.drop_last()
    } else {
        line
    }
}

/// The lines of `content`. A line feed ends a line and is no part of it, nor
/// is a carriage return just before the line feed. What follows the last line
/// feed is a line too, unless it is empty.
pub open spec fn lines(content: Seq<u8>) -> Seq<Seq<u8>>
    decreases content.len(),
{
    let len = first_line_len(content) as int;
    if content.len() == 0 {
        Seq::empty()
    } else if len >= content.len() {
        seq![content]
    } else {
        seq![without_carriage_return(content.take(len))] + lines(content.skip(len + 1))
    }
}

/// `line` is well-formed UTF-8 and holds the adapter key.
pub open spec fn is_adapter_line(line: Seq<u8>) -> bool {
    valid_utf8(line) && contains(line, adapter_marker())
}

/// The first of `lines` that is an adapter line.
pub open spec fn first_adapter_line(lines: Seq<Seq<u8>>) -> Option<Seq<u8>>
    decreases lines.len(),
{
    if lines.len() == 0 {
        None
    } else if is_adapter_line(lines[0]) {
        Some(lines[0])
    } else {
        first_adapter_line(lines.drop_first())
    }
}

/// The monitor that settings with the bytes `content` prefer: what their
/// first adapter line says, and none where they have no such line.
pub open spec fn config_monitor_number(content: Seq<u8>) -> Result<Option<usize>, NumberError> {
    match first_adapter_line(lines(content)) {
        None => Ok(None),
        Some(line) => line_monitor_number(line),
    }
}

/// The two delimiters of the monitor field, byte by byte.
proof fn lemma_delimiters()
    ensures
        field_open() =~= seq!['(' as u8, '#' as u8],
        field_close() =~= seq![')' as u8],
{
    reveal_strlit("(#");
    reveal_strlit(")");
    vstd::string::is_ascii_spec_bytes("(#");
    vstd::string::is_ascii_spec_bytes(")");
}

/// A line that ends in `(#`, a run of digits and `)` prefers the monitor that
/// the digits denote, whatever stands before the `(#`.
pub proof fn lemma_line_with_monitor_field(before: Seq<u8>, digits: Seq<u8>)
    requires
        digits.len() > 0,
        all_digits(digits),
        decimal_value(digits) <= usize::MAX,
    ensures
        line_monitor_number(before + field_open() + digits + field_close()) == Ok::<
            Option<usize>,
            NumberError,
        >(Some(decimal_value(digits) as usize)),
{
    lemma_delimiters();
    let line = before + field_open() + digits + field_close();
    let start = before.len() as int;
    let end = line.len() - 1;
    assert(line.subrange(start, start + 2) =~= field_open());
    assert(line.subrange(end, end + 1) =~= field_close());
    assert forall|later: int| start < later implies !occurs_at(line, field_open(), later) by {
        if start + 2 <= later < end {
            assert(line[later] == digits[later - start - 2]);
        }
    }
    lemma_last_occurrence_is(line, field_open(), start);
    lemma_last_occurrence_is(line, field_close(), end);
    assert(line.subrange(start + 2, end) =~= digits);
    lemma_leading_digits(digits, digits.len() as int);
    assert(digits.take(digits.len() as int) =~= digits);
}

/// Settings in which the adapter key stands nowhere have no adapter line, and
/// so state no preference.
pub proof fn lemma_no_marker_no_preference(content: Seq<u8>)
    requires
        !contains(content, adapter_marker()),
    ensures
        first_adapter_line(lines(content)) is None,
        config_monitor_number(content) == Ok::<Option<usize>, NumberError>(None),
    decreases content.len(),
{
    let marker = adapter_marker();
    let len = first_line_len(content) as int;
    if 0 < content.len() <= len {
        assert(first_adapter_line(lines(content).drop_first()) is None);
    } else if content.len() > 0 {
        let line = without_carriage_return(content.take(len));
        let rest = content.skip(len + 1);
        assert forall|at: int| !occurs_at(line, marker, at) by {
            if occurs_at(line, marker, at) {
                assert(content.subrange(at, at + marker.len()) =~= line.subrange(
                    at,
                    at + marker.len(),
                ));
                assert(occurs_at(content, marker, at));
            }
        }
        assert forall|at: int| !occurs_at(rest, marker, at) by {
            if occurs_at(rest, marker, at) {
                assert(content.subrange(len + 1 + at, len + 1 + at + marker.len())
                    =~= rest.subrange(at, at + marker.len()));
                assert(occurs_at(content, marker, len + 1 + at));
            }
        }
        lemma_no_marker_no_preference(rest);
        assert(lines(content).drop_first() =~= lines(rest));
    }
}

/// Bytes up to a line feed, or up to the end, are the first line.
proof fn lemma_first_line_len(content: Seq<u8>, len: int)
    requires
        0 <= len <= content.len(),
        forall|i: int| 0 <= i < len ==> content[i] != '\n' as u8,
        len < content.len() ==> content[len] == '\n' as u8,
    ensures
        first_line_len(content) == len,
    decreases len,
{
    if len > 0 {
        lemma_first_line_len(content.drop_first(), len - 1);
    }
}

/// Tells whether `bytes` are well-formed UTF-8, as `std::str::from_utf8`
/// judges it: that function succeeds on the well-formed byte strings and on no
/// others.
#[verifier::external_body]
fn is_utf8(bytes: &[u8]) -> (valid: bool)
    ensures
        valid == valid_utf8(bytes@),
{
    std::str::from_utf8(bytes).is_ok()
}

/// Finds the end of the line that begins at `from`: the offset of the next
/// line feed, or the length of `content` where none follows.
fn line_end(content: &[u8], from: usize) -> (end: usize)
    requires
        from <= content.len(),
    ensures
        from <= end <= content.len(),
        end - from == first_line_len(content@.skip(from as int)),
{
    let mut end: usize = from;
    while end < content.len() && content[end] != '\n' as u8
        invariant
            from <= end <= content.len(),
            forall|i: int| from <= i < end ==> content@[i] != '\n' as u8,
        decreases content.len() - end,
    {
        end += 1;
    }
    proof {
        lemma_first_line_len(content@.skip(from as int), end - from);
    }
    end
}

/// Looks through the game's settings for the monitor that the game is set to
/// use.
///
/// `content` holds the bytes of the settings file. Its first line that is
/// well-formed UTF-8 and holds `adapter_name` decides. The monitor number
/// stands on that line between the last `(#` and the last `)`, as in
/// `adapter_name=AMD Radeon RX 5700 XT(#0)`. Settings without such a line, and
/// a line without such a field, state no preference; a field that is no
/// number is an error.
pub fn active_monitor_number_from_poe_config(content: &[u8]) -> (number: Result<
    Option<usize>,
    NumberError,
>)
    ensures
        number == config_monitor_number(content@),
{
    let marker = "adapter_name".as_bytes();
    let mut pos: usize = 0;
    assert(content@.skip(0) =~= content@);
    while pos < content.len()
        invariant
            pos <= content.len(),
            marker@ == adapter_marker(),
            first_adapter_line(lines(content@)) == first_adapter_line(
                lines(content@.skip(pos as int)),
            ),
        decreases content.len() - pos,
    {
        let end = line_end(content, pos);
        let terminated = end < content.len();
        let stop = if terminated && end > pos && content[end - 1] == '\r' as u8 {
            end - 1
        } else {
            end
        };
        let line = slice_subrange(content, pos, stop);
        let next = if terminated { end + 1 } else { end };
        proof {
            let rest = content@.skip(pos as int);
            let len = end - pos;
            if terminated {
                assert(rest.skip(len + 1) =~= content@.skip(next as int));
            }
            assert(lines(rest).drop_first() =~= lines(content@.skip(next as int)));
            assert(lines(rest)[0] == line@);
        }
        if is_utf8(line) && contains_bytes(line, marker) {
            return active_monitor_number_in_line(line);
        }
        pos = next;
    }
    Ok(None)
}

} // verus!
