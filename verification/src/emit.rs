//! The format emitter: a tile stream becomes the text of a C array or of an assembly
//! data block, 16 bytes to a line.

use crate::tile::EncodedTile;
use vstd::prelude::*;

verus! {

/// The number of bytes rendered on one line.
pub const BYTES_PER_LINE: usize = 16;

/// The text that a tile stream is rendered as.
#[derive(Copy, Clone, Debug, PartialEq, Eq, Structural)]
pub enum OutputType {
    /// A C array of `unsigned char`.
    Gbdk,
    /// An assembly section of `db` lines with an exported label at its start and end.
    Rgbds,
}

/// `std::string::String::push`: the string afterwards is the string before with `ch`
/// appended at its end.
pub assume_specification[ String::push ](s: &mut String, ch: char)
    ensures
        final(s)@ == old(s)@.push(ch),
;

/// The digit of `n`, below 16, in upper-case hexadecimal.
pub open spec fn upper_hex_digit(n: int) -> char {
    "0123456789ABCDEF"@[n]
}

/// The digit of `n`, below 16, in lower-case hexadecimal.
pub open spec fn lower_hex_digit(n: int) -> char {
    "0123456789abcdef"@[n]
}

/// One byte as it stands in the text: `0x` and two upper-case digits in a C array,
/// `$` and two lower-case digits in an assembly block.
pub open spec fn byte_text(output_type: OutputType, b: u8) -> Seq<char> {
    match output_type {
        OutputType::Gbdk => "0x"@.push(upper_hex_digit(b as int / 16)).push(
            upper_hex_digit(b as int % 16),
        ),
        OutputType::Rgbds => "$"@.push(lower_hex_digit(b as int / 16)).push(
            lower_hex_digit(b as int % 16),
        ),
    }
}

/// What a line begins with, before its first byte.
pub open spec fn line_start(output_type: OutputType) -> Seq<char> {
    match output_type {
        OutputType::Gbdk => "    "@,
        OutputType::Rgbds => "    db "@,
    }
}

/// The texts of `parts` one after the other, with `sep` between each two of them.
pub open spec fn join(parts: Seq<Seq<char>>, sep: Seq<char>) -> Seq<char>
    decreases parts.len(),
{
    if parts.len() == 0 {
        Seq::empty()
    } else if parts.len() == 1 {
        parts[0]
    } else {
        join(parts.drop_last(), sep) + sep + parts.last()
    }
}

/// The number of lines that `len` bytes take: 16 bytes to a line, the last line
/// holding what is left.
pub open spec fn line_count(len: int) -> int {
    (len + 15) / 16
}

/// The bytes of line `k`.
pub open spec fn line_bytes(data: Seq<u8>, k: int) -> Seq<u8> {
    data.subrange(16 * k, if 16 * k + 16 <= data.len() {
        16 * k + 16
    } else {
        data.len() as int
    })
}

/// One line of the text: its start, then its bytes with a comma between each two.
pub open spec fn line_text(output_type: OutputType, bytes: Seq<u8>) -> Seq<char> {
    line_start(output_type) + join(
        Seq::new(bytes.len(), |i: int| byte_text(output_type, bytes[i])),
        ","@,
    )
}

/// The lines of the text, with a comma and a line break between each two.
pub open spec fn body_text(output_type: OutputType, data: Seq<u8>) -> Seq<char> {
    join(
        Seq::new(
            line_count(data.len() as int) as nat,
            |k: int| line_text(output_type, line_bytes(data, k)),
        ),
        ",\n"@,
    )
}

/// The C array named `name` that holds `data`.
pub open spec fn gbdk_text(name: Seq<char>, data: Seq<u8>) -> Seq<char> {
    "unsigned char "@ + name + "[] = {"@ + "\n"@ + body_text(OutputType::Gbdk, data) + "\n};\n"@
}

/// The assembly section that holds `data` between the exported labels `name` and
/// `name` followed by `_end`.
pub open spec fn rgbds_text(name: Seq<char>, data: Seq<u8>) -> Seq<char> {
    "SECTION \"Tiles for '"@ + name + "'\", ROM0\n\nEXPORT "@ + name + ", "@ + name + "_end"@
        + "\n\n"@ + name + ":"@ + "\n"@ + body_text(OutputType::Rgbds, data) + "\n"@ + name
        + "_end"@ + ":\n"@
}

/// Appends the text of one byte.
fn push_byte(out: &mut String, output_type: OutputType, b: u8)
    ensures
        final(out)@ == old(out)@ + byte_text(output_type, b),
{
    proof {
        reveal_strlit("0123456789ABCDEF");
        reveal_strlit("0123456789abcdef");
    }
    let high = (b / 16) as usize;
    let low = (b % 16) as usize;
    match output_type {
        OutputType::Gbdk => {
            out.append("0x");
            out.push("0123456789ABCDEF".get_char(high));
            out.push("0123456789ABCDEF".get_char(low));
        },
        OutputType::Rgbds => {
            out.append("$");
            out.push("0123456789abcdef".get_char(high));
            out.push("0123456789abcdef".get_char(low));
        },
    }
    assert(out@ =~= old(out)@ + byte_text(output_type, b));
}

/// Appends one line: the bytes of `data` from `from` up to `to`.
fn push_line(out: &mut String, output_type: OutputType, data: &Vec<u8>, from: usize, to: usize)
    requires
        from <= to <= data@.len(),
    ensures
        final(out)@ == old(out)@ + line_text(output_type, data@.subrange(from as int, to as int)),
{
    let ghost bytes = data@.subrange(from as int, to as int);
    let ghost texts = Seq::new(bytes.len(), |i: int| byte_text(output_type, bytes[i]));
    match output_type {
        OutputType::Gbdk => out.append("    "),
        OutputType::Rgbds => out.append("    db "),
    }
    let ghost base = out@;
    let mut i: usize = from;
    assert(texts.take(0) =~= Seq::<Seq<char>>::empty());
    while i < to
        invariant
            from <= i <= to <= data@.len(),
            bytes == data@.subrange(from as int, to as int),
            texts == Seq::new(bytes.len(), |i: int| byte_text(output_type, bytes[i])),
            out@ == base + join(texts.take(i - from), ","@),
        decreases to - i,
    {
        let ghost done = texts.take(i - from);
        let ghost next = texts.take(i - from + 1);
        if i > from {
            out.append(",");
        }
        push_byte(out, output_type, data[i]);
        proof {
            assert(next.drop_last() =~= done);
            assert(next.last() == byte_text(output_type, data@[i as int]));
            assert(out@ =~= base + join(next, ","@));
        }
        i += 1;
    }
    assert(texts.take(to - from) =~= texts);
    assert(out@ =~= old(out)@ + line_text(output_type, bytes));
}

/// Appends the lines of the text for `data`.
fn push_body(out: &mut String, output_type: OutputType, data: &Vec<u8>)
    ensures
        final(out)@ == old(out)@ + body_text(output_type, data@),
{
    let ghost lines = Seq::new(
        line_count(data@.len() as int) as nat,
        |k: int| line_text(output_type, line_bytes(data@, k)),
    );
    let ghost base = out@;
    let mut from: usize = 0;
    let ghost mut k: int = 0;
    assert(lines.take(0) =~= Seq::<Seq<char>>::empty());
    assert(out@ =~= base + join(lines.take(0), ",\n"@));
    while from < data.len()
        invariant
            from <= data@.len(),
            from == 16 * k || (from == data@.len() && k == line_count(data@.len() as int)),
            0 <= k <= line_count(data@.len() as int),
            lines == Seq::new(
                line_count(data@.len() as int) as nat,
                |k: int| line_text(output_type, line_bytes(data@, k)),
            ),
            out@ == base + join(lines.take(k), ",\n"@),
        decreases data@.len() - from,
    {
        let to = if data.len() - from > BYTES_PER_LINE {
            from + BYTES_PER_LINE
        } else {
            data.len()
        };
        let ghost done = lines.take(k);
        let ghost next = lines.take(k + 1);
        if from > 0 {
            out.append(",\n");
        }
        push_line(out, output_type, data, from, to);
        proof {
            assert(data@.subrange(from as int, to as int) =~= line_bytes(data@, k));
            assert(next.drop_last() =~= done);
            assert(next.last() == line_text(output_type, line_bytes(data@, k)));
            assert(out@ =~= base + join(next, ",\n"@));
            k = k + 1;
        }
        from = to;
    }
    assert(lines.take(k) =~= lines);
}

/// Renders the tiles as a C array of `unsigned char` named `variable_name`: the
/// opening line, the bytes 16 to a line as `0x` and two upper-case hexadecimal digits,
/// commas between bytes and between lines, and the closing `};`.
pub fn write_tile_gbdk(variable_name: &str, encoded_tile: &EncodedTile) -> (res: String)
    ensures
        res@ == gbdk_text(variable_name@, encoded_tile.tile_data@),
{
    let mut out = String::new();
    out.append("unsigned char ");
    out.append(variable_name);
    out.append("[] = {");
    out.append("\n");
    push_body(&mut out, OutputType::Gbdk, &encoded_tile.tile_data);
    out.append("\n};\n");
    assert(out@ =~= gbdk_text(variable_name@, encoded_tile.tile_data@));
    out
}

/// Renders the tiles as an assembly section: the section and export lines that name
/// `variable_name` and `variable_name` followed by `_end`, the start label, the bytes
/// 16 to a `db` line as `$` and two lower-case hexadecimal digits, and the end label.
pub fn write_tile_rgbds(variable_name: &str, encoded_tile: &EncodedTile) -> (res: String)
    ensures
        res@ == rgbds_text(variable_name@, encoded_tile.tile_data@),
{
    let mut out = String::new();
    out.append("SECTION \"Tiles for '");
    out.append(variable_name);
    out.append("'\", ROM0\n\nEXPORT ");
    out.append(variable_name);
    out.append(", ");
    out.append(variable_name);
    out.append("_end");
    out.append("\n\n");
    out.append(variable_name);
    out.append(":");
    out.append("\n");
    push_body(&mut out, OutputType::Rgbds, &encoded_tile.tile_data);
    out.append("\n");
    out.append(variable_name);
    out.append("_end");
    out.append(":\n");
    assert(out@ =~= rgbds_text(variable_name@, encoded_tile.tile_data@));
    out
}

impl OutputType {
    /// The output type that `name` selects: `rgbds` selects the assembly block, and
    /// `gbdk`, any other name and no name at all select the C array.
    pub open spec fn selected_by(name: Option<Seq<char>>) -> OutputType {
        match name {
            Some(s) => if s == "rgbds"@ {
                OutputType::Rgbds
            } else {
                OutputType::Gbdk
            },
            None => OutputType::Gbdk,
        }
    }

    /// The output type that `name` selects: `rgbds` selects the assembly block, and
    /// `gbdk`, any other name and no name at all select the C array.
    pub fn from_name(name: Option<&str>) -> (res: OutputType)
        ensures
            res == OutputType::selected_by(
                match name {
                    Some(s) => Some(s@),
                    None => None,
                },
            ),
    {
        match name {
            Some(s) => {
                if s.to_owned() == "rgbds".to_owned() {
                    OutputType::Rgbds
                } else {
                    OutputType::Gbdk
                }
            },
            None => OutputType::Gbdk,
        }
    }
}

/// The text of `encoded_tile` in the given output type, under the name `variable_name`.
pub open spec fn tile_text(output_type: OutputType, name: Seq<char>, data: Seq<u8>) -> Seq<char> {
    match output_type {
        OutputType::Gbdk => gbdk_text(name, data),
        OutputType::Rgbds => rgbds_text(name, data),
    }
}

/// Renders the tiles in the given output type, under the name `variable_name`.
pub fn render_tile(variable_name: &str, encoded_tile: &EncodedTile, output_type: OutputType) -> (res:
    String)
    ensures
        res@ == tile_text(output_type, variable_name@, encoded_tile.tile_data@),
{
    match output_type {
        OutputType::Gbdk => write_tile_gbdk(variable_name, encoded_tile),
        OutputType::Rgbds => write_tile_rgbds(variable_name, encoded_tile),
    }
}

/// The path of an input file that has no base name to call the tiles by.
#[derive(Debug)]
pub struct InvalidSymbolName {
    pub path: String,
}

/// Whether `part` stands somewhere in `whole`, its characters one after the other.
pub open spec fn is_part_of(part: Seq<char>, whole: Seq<char>) -> bool {
    exists|at: int|
        0 <= at && at + part.len() <= whole.len() && #[trigger] whole.subrange(
            at,
            at + part.len(),
        ) == part
}

/// `std::path::Path::file_stem` on the path that `path` spells, with the stem, where
/// there is one, copied into a `String`.
///
/// Which part of the path is its file name differs from one platform to another, so
/// the contract claims only what the documentation of `file_stem` and `file_name`
/// gives on each of them. The stem is the whole file name or what stands in it before
/// its last `.`, and the file name is the last component of the path: so the stem is a
/// part of the path. A component is never empty, and a file name whose only `.` is its
/// first character is kept whole: so the stem is not empty. Whether there is a stem is
/// left open.
#[verifier::external_body]
fn file_stem(path: &str) -> (res: Option<String>)
    ensures
        res matches Some(stem) ==> stem@.len() > 0 && is_part_of(stem@, path@),
{
    match std::path::Path::new(path).file_stem() {
        Some(stem) => Some(stem.to_string_lossy().into_owned()),
        None => None,
    }
}

/// The name for the tiles of the file at `path`, given the stem of its file name: the
/// stem itself, and an error that holds `path` where there is none.
pub fn name_from_stem(stem: Option<String>, path: &str) -> (res: Result<String, InvalidSymbolName>)
    ensures
        match res {
            Ok(name) => stem == Some(name),
            Err(e) => stem is None && e.path@ == path@,
        },
{
    match stem {
        Some(name) => Ok(name),
        None => Err(InvalidSymbolName { path: path.to_owned() }),
    }
}

/// The name for the tiles of the file at `input_filename`: its file name without the
/// directories before it and without its extension. A path without a file name is
/// refused, and the error holds the path.
///
/// Where the file name starts and ends in a path depends on the platform. On each of
/// them the name is a part of the path and not empty, so the empty path is always
/// refused.
pub fn variable_name(input_filename: &str) -> (res: Result<String, InvalidSymbolName>)
    ensures
        match res {
            Ok(name) => name@.len() > 0 && is_part_of(name@, input_filename@),
            Err(e) => e.path@ == input_filename@,
        },
        input_filename@.len() == 0 ==> res is Err,
{
    name_from_stem(file_stem(input_filename), input_filename)
}

/// Renders the tiles in the given output type, under the name that the file they came
/// from gives them: for each name that the file may get, the text is that of
/// [`render_tile`] under it, and a file without a name is refused.
pub fn format_tile(encoded_tile: &EncodedTile, output_type: OutputType) -> (res: Result<
    String,
    InvalidSymbolName,
>)
    ensures
        match res {
            Ok(text) => exists|name: Seq<char>|
                text@ == #[trigger] tile_text(output_type, name, encoded_tile.tile_data@),
            Err(e) => e.path@ == encoded_tile.input_filename@,
        },
{
    match variable_name(encoded_tile.input_filename.as_str()) {
        Ok(name) => Ok(render_tile(name.as_str(), encoded_tile, output_type)),
        Err(e) => Err(e),
    }
}

} // verus!
