use vstd::prelude::*;
use vstd::string::*;
use crate::error::BitsError;
use crate::numeral::{push_radix_digits, radix_digits};

verus! {

/// The number of bits a table shows: 64 when the value does not fit in 32 bits, else 32.
pub open spec fn display_width(v: u64) -> nat {
    if v > 0xFFFF_FFFFu64 {
        64
    } else {
        32
    }
}

/// The chunk widths a table can group bits by.
pub open spec fn valid_chunk(chunk: u8) -> bool {
    chunk == 1 || chunk == 2 || chunk == 4
}

/// The width of one header field, which is also the indent of the border lines.
pub open spec fn field_width(chunk: nat) -> nat {
    if chunk == 1 {
        3
    } else if chunk == 2 {
        4
    } else {
        6
    }
}

/// The number of data columns of a table.
pub open spec fn column_count(v: u64, chunk: nat) -> nat {
    display_width(v) / chunk
}

/// `n` copies of the character `c`.
pub open spec fn run(c: char, n: nat) -> Seq<char> {
    Seq::new(n, |_i: int| c)
}

/// `s` right-aligned in a field of `w` characters, padded with spaces.
pub open spec fn pad_left(s: Seq<char>, w: nat) -> Seq<char> {
    if s.len() < w {
        run(' ', (w - s.len()) as nat) + s
    } else {
        s
    }
}

/// One header field: the bit index `idx` in decimal, right-aligned, then `|`.
pub open spec fn header_cell(idx: nat, chunk: nat) -> Seq<char> {
    pad_left(radix_digits(idx, 10), field_width(chunk)) + seq!['|']
}

/// The header fields: bit indices from the display width down to 0 in steps of `chunk`.
/// There is one more of them than there are data columns.
pub open spec fn header_cells(v: u64, chunk: nat) -> Seq<Seq<char>> {
    Seq::new(
        column_count(v, chunk) + 1,
        |k: int| header_cell((display_width(v) - k * chunk) as nat, chunk),
    )
}

/// The header line, with its newline.
pub open spec fn header_row(v: u64, chunk: nat) -> Seq<char> {
    header_cells(v, chunk).flatten() + seq!['\n']
}

/// One segment of a border: a corner and a run of dashes as wide as a column's content.
pub open spec fn border_unit(chunk: nat) -> Seq<char> {
    seq!['+'] + run('-', field_width(chunk))
}

/// A border line: indent, one segment per column, a closing corner and newline,
/// and the indent that starts the next line.
pub open spec fn border_line(v: u64, chunk: nat) -> Seq<char> {
    run(' ', field_width(chunk)) + Seq::new(column_count(v, chunk), |_k: int| border_unit(chunk)).flatten()
        + seq!['+', '\n'] + run(' ', field_width(chunk))
}

/// Bit `i` of `v` as a binary digit.
pub open spec fn bit_char(v: u64, i: int) -> char {
    if (v >> (i as u64)) & 1u64 == 1u64 {
        '1'
    } else {
        '0'
    }
}

/// The data field of the `chunk` bits of `v` from bit `idx` up, most significant first.
pub open spec fn data_cell(v: u64, idx: int, chunk: nat) -> Seq<char> {
    seq!['|', ' '] + Seq::new(chunk, |j: int| bit_char(v, idx + chunk - 1 - j)) + seq![' ']
}

/// The data fields, most significant group first.
pub open spec fn data_cells(v: u64, chunk: nat) -> Seq<Seq<char>> {
    Seq::new(
        column_count(v, chunk),
        |k: int| data_cell(v, display_width(v) - chunk * (k + 1), chunk),
    )
}

/// The data line, closed by `|` and a newline.
pub open spec fn data_row(v: u64, chunk: nat) -> Seq<char> {
    data_cells(v, chunk).flatten() + seq!['|', '\n']
}

/// The whole bit table of `v` grouped by `chunk` bits.
pub open spec fn bit_table(v: u64, chunk: nat) -> Seq<char> {
    header_row(v, chunk) + border_line(v, chunk) + data_row(v, chunk) + border_line(v, chunk)
}

proof fn lemma_columns(width: nat, chunk: nat)
    requires
        width == 32 || width == 64,
        chunk == 1 || chunk == 2 || chunk == 4,
    ensures
        (width / chunk) * chunk == width,
        width / chunk >= 8,
{
}

/// Appends `n` copies of the one character of `piece`.
fn push_run(out: &mut String, piece: &str, n: usize)
    requires
        piece@.len() == 1,
    ensures
        final(out)@ == old(out)@ + run(piece@[0], n as nat),
{
    let mut i: usize = 0;
    while i < n
        invariant
            i <= n,
            piece@.len() == 1,
            out@ == old(out)@ + run(piece@[0], i as nat),
        decreases n - i,
    {
        out.append(piece);
        i = i + 1;
        assert(out@ =~= old(out)@ + run(piece@[0], i as nat));
    }
}

/// Appends the header field of bit index `idx`.
fn push_header_cell(out: &mut String, idx: u64, chunk: u8, fw: usize)
    requires
        valid_chunk(chunk),
        fw == field_width(chunk as nat),
    ensures
        final(out)@ == old(out)@ + header_cell(idx as nat, chunk as nat),
{
    proof {
        reveal_strlit(" ");
        reveal_strlit("|");
    }
    let mut digits = String::new();
    push_radix_digits(&mut digits, idx, 10);
    assert(digits@ =~= radix_digits(idx as nat, 10));
    let len = digits.as_str().unicode_len();
    if len < fw {
        push_run(out, " ", fw - len);
    }
    out.append(digits.as_str());
    out.append("|");
    assert(final(out)@ =~= old(out)@ + header_cell(idx as nat, chunk as nat));
}

/// Bit `s` of the group that a shift by `idx` and a mask of `c` ones take out of `v`
/// is bit `idx + s` of `v`.
proof fn lemma_group_bit(v: u64, idx: u64, c: u64, m: u64, s: u64) by (bit_vector)
    requires
        (c == 1 && m == 1) || (c == 2 && m == 3) || (c == 4 && m == 15),
        s < c,
        idx + c <= 64,
    ensures
        (((v >> idx) & m) >> s) & 1u64 == (v >> ((idx + s) as u64)) & 1u64,
{
}

/// Appends the data field of the `chunk` bits of `v` from bit `idx` up.
fn push_data_cell(out: &mut String, v: u64, idx: u64, chunk: u8)
    requires
        valid_chunk(chunk),
        idx + chunk <= 64,
    ensures
        final(out)@ == old(out)@ + data_cell(v, idx as int, chunk as nat),
{
    proof {
        reveal_strlit("| ");
        reveal_strlit("0");
        reveal_strlit("1");
        reveal_strlit(" ");
    }
    let c = chunk as u64;
    let mask: u64 = if c == 1 {
        1
    } else if c == 2 {
        3
    } else {
        15
    };
    let group = (v >> idx) & mask;
    out.append("| ");
    let ghost start = out@;
    let mut j: u64 = 0;
    while j < c
        invariant
            j <= c,
            c == chunk as u64,
            valid_chunk(chunk),
            idx + chunk <= 64,
            (c == 1 && mask == 1) || (c == 2 && mask == 3) || (c == 4 && mask == 15),
            group == (v >> idx) & mask,
            out@ == start + Seq::new(j as nat, |t: int| bit_char(v, idx + chunk - 1 - t)),
        decreases c - j,
    {
        let s = c - 1 - j;
        proof {
            lemma_group_bit(v, idx, c, mask, s);
        }
        let ghost prev = out@;
        let bit = (group >> s) & 1;
        assert(bit == (v >> ((idx + chunk - 1 - j) as u64)) & 1u64);
        if bit == 1 {
            out.append("1");
            proof {
                reveal_strlit("1");
            }
            assert("1"@ =~= seq!['1']);
        } else {
            out.append("0");
            proof {
                reveal_strlit("0");
            }
            assert("0"@ =~= seq!['0']);
        }
        assert(out@ == prev + seq![bit_char(v, idx + chunk - 1 - j)]);
        j = j + 1;
        assert(out@ =~= start + Seq::new(j as nat, |t: int| bit_char(v, idx + chunk - 1 - t)));
    }
    out.append(" ");
    assert(final(out)@ =~= old(out)@ + data_cell(v, idx as int, chunk as nat));
}

/// Builds the border line of a table of `cols` columns.
fn border_text(v: u64, chunk: u8, fw: usize, cols: u64) -> (r: String)
    requires
        valid_chunk(chunk),
        fw == field_width(chunk as nat),
        cols == column_count(v, chunk as nat),
    ensures
        r@ == border_line(v, chunk as nat),
{
    proof {
        reveal_strlit(" ");
        reveal_strlit("+");
        reveal_strlit("-");
        reveal_strlit("+\n");
    }
    let mut line = String::new();
    push_run(&mut line, " ", fw);
    let ghost start = line@;
    let mut k: u64 = 0;
    while k < cols
        invariant
            k <= cols,
            valid_chunk(chunk),
            fw == field_width(chunk as nat),
            line@ == start + Seq::new(k as nat, |_t: int| border_unit(chunk as nat)).flatten(),
        decreases cols - k,
    {
        let ghost prev = line@;
        line.append("+");
        proof {
            reveal_strlit("+");
            reveal_strlit("-");
        }
        push_run(&mut line, "-", fw);
        assert(line@ =~= prev + border_unit(chunk as nat));
        proof {
            let units = Seq::new(k as nat, |_t: int| border_unit(chunk as nat));
            units.lemma_flatten_push(border_unit(chunk as nat));
            assert(Seq::new((k + 1) as nat, |_t: int| border_unit(chunk as nat)) =~= units.push(
                border_unit(chunk as nat),
            ));
        }
        k = k + 1;
    }
    line.append("+\n");
    push_run(&mut line, " ", fw);
    assert(line@ =~= border_line(v, chunk as nat));
    line
}

/// Renders the bit table of `value` grouped by `chunk` bits: a header of bit indices,
/// a border, one field per group of bits, most significant first, and the border again.
pub fn render_bits(value: u64, chunk: u8) -> (r: Result<String, BitsError>)
    ensures
        valid_chunk(chunk) <==> r is Ok,
        r matches Ok(t) ==> t@ == bit_table(value, chunk as nat),
        r matches Err(e) ==> e == BitsError::InvalidChunkWidth(chunk),
{
    if !(chunk == 1 || chunk == 2 || chunk == 4) {
        return Err(BitsError::InvalidChunkWidth(chunk));
    }
    proof {
        reveal_strlit("\n");
        reveal_strlit("|\n");
    }
    let width: u64 = if value > 0xFFFF_FFFFu64 {
        64
    } else {
        32
    };
    let c = chunk as u64;
    let fw: usize = if chunk == 1 {
        3
    } else if chunk == 2 {
        4
    } else {
        6
    };
    let cols = width / c;
    proof {
        lemma_columns(width as nat, c as nat);
    }
    let ghost cn = chunk as nat;

    let mut table = String::new();
    let mut k: u64 = 0;
    while k <= cols
        invariant
            k <= cols + 1,
            valid_chunk(chunk),
            c == chunk as u64,
            fw == field_width(cn),
            cn == chunk as nat,
            width == display_width(value),
            cols == column_count(value, cn),
            cols * c == width,
            table@ == Seq::new(
                k as nat,
                |t: int| header_cell((display_width(value) - t * cn) as nat, cn),
            ).flatten(),
        decreases cols + 1 - k,
    {
        assert(k * c <= width) by (nonlinear_arith)
            requires
                k <= cols,
                cols * c == width,
                c > 0,
        ;
        let idx = width - k * c;
        push_header_cell(&mut table, idx, chunk, fw);
        proof {
            let f = |t: int| header_cell((display_width(value) - t * cn) as nat, cn);
            let cells = Seq::new(k as nat, f);
            cells.lemma_flatten_push(f(k as int));
            assert(Seq::new((k + 1) as nat, f) =~= cells.push(f(k as int)));
        }
        k = k + 1;
    }
    assert(Seq::new(k as nat, |t: int| header_cell((display_width(value) - t * cn) as nat, cn))
        =~= header_cells(value, cn));
    table.append("\n");
    let line = border_text(value, chunk, fw, cols);
    table.append(line.as_str());
    let ghost top = table@;
    assert(top =~= header_row(value, cn) + border_line(value, cn));

    let mut k: u64 = 0;
    while k < cols
        invariant
            k <= cols,
            valid_chunk(chunk),
            c == chunk as u64,
            cn == chunk as nat,
            width == display_width(value),
            cols == column_count(value, cn),
            cols * c == width,
            table@ == top + Seq::new(
                k as nat,
                |t: int| data_cell(value, display_width(value) - cn * (t + 1), cn),
            ).flatten(),
        decreases cols - k,
    {
        assert(c * (k + 1) <= width) by (nonlinear_arith)
            requires
                k + 1 <= cols,
                cols * c == width,
                c > 0,
        ;
        let idx = width - c * (k + 1);
        push_data_cell(&mut table, value, idx, chunk);
        proof {
            let f = |t: int| data_cell(value, display_width(value) - cn * (t + 1), cn);
            let cells = Seq::new(k as nat, f);
            cells.lemma_flatten_push(f(k as int));
            assert(Seq::new((k + 1) as nat, f) =~= cells.push(f(k as int)));
        }
        k = k + 1;
    }
    assert(Seq::new(k as nat, |t: int| data_cell(value, display_width(value) - cn * (t + 1), cn))
        =~= data_cells(value, cn));
    table.append("|\n");
    table.append(line.as_str());
    assert(table@ =~= bit_table(value, cn));
    Ok(table)
}

/// Flattening sequences that all have length `w` gives `w` characters per sequence.
proof fn lemma_flatten_uniform_len(ss: Seq<Seq<char>>, w: nat)
    requires
        forall|i: int| 0 <= i < ss.len() ==> (#[trigger] ss[i]).len() == w,
    ensures
        ss.flatten().len() == ss.len() * w,
    decreases ss.len(),
{
    if ss.len() > 0 {
        let rest = ss.drop_first();
        assert forall|i: int| 0 <= i < rest.len() implies (#[trigger] rest[i]).len() == w by {
            assert(rest[i] == ss[i + 1]);
        }
        lemma_flatten_uniform_len(rest, w);
        assert(ss.flatten() == ss.first() + rest.flatten());
        assert(ss.first().len() == w);
        assert(ss.len() * w == w + rest.len() * w) by (nonlinear_arith)
            requires
                ss.len() == rest.len() + 1,
        ;
    } else {
        assert(ss.flatten().len() == 0);
        assert(ss.len() * w == 0);
    }
}

/// For every chunk width, a table has `display_width / chunk` data columns, which
/// together cover the display width; the header labels one more index than that; each
/// data field is `| `, `chunk` binary digits and a space, and the data line is those
/// fields followed by `|` and a newline.
pub proof fn lemma_table_columns(v: u64, chunk: u8)
    requires
        valid_chunk(chunk),
    ensures
        data_cells(v, chunk as nat).len() == display_width(v) / (chunk as nat),
        data_cells(v, chunk as nat).len() * chunk == display_width(v),
        header_cells(v, chunk as nat).len() == data_cells(v, chunk as nat).len() + 1,
        forall|k: int|
            0 <= k < data_cells(v, chunk as nat).len() ==> {
                let cell = #[trigger] data_cells(v, chunk as nat)[k];
                &&& cell.len() == chunk + 3
                &&& cell[0] == '|' && cell[1] == ' ' && cell[chunk + 2] == ' '
                &&& forall|j: int| 2 <= j < chunk + 2 ==> cell[j] == '0' || cell[j] == '1'
            },
        data_row(v, chunk as nat).len() == data_cells(v, chunk as nat).len() * (chunk + 3) + 2,
{
    let c = chunk as nat;
    lemma_columns(display_width(v), c);
    let cells = data_cells(v, c);
    assert forall|k: int| 0 <= k < cells.len() implies (#[trigger] cells[k]).len() == c + 3 by {
    }
    lemma_flatten_uniform_len(cells, c + 3);
}

} // verus!
