//! The `@EDIABAS OBJECT` container: header, XOR-`0xF7` body, and the table directory.
//!
//! [`Prg::parse`] takes the raw file bytes and returns the embedded [`Table`]s as decoded
//! `(name, columns, rows)` strings.
use vstd::prelude::*;
use crate::sgbd::cp1252::decode;
use crate::text::same_text;

verus! {

/// Length of the container signature `@EDIABAS OBJECT`.
pub const MAGIC_LEN: usize = 15;

/// The container signature (15 ASCII bytes; the byte after it is a NUL).
const MAGIC: [u8; 15] = [
    0x40, 0x45, 0x44, 0x49, 0x41, 0x42, 0x41, 0x53, 0x20, 0x4F, 0x42, 0x4A, 0x45, 0x43, 0x54,
];

/// Offset where the obfuscated body begins; bytes below this are plaintext.
pub const DATA_OFFSET: usize = 0xA0;

/// The whole-body obfuscation key: every byte from [`DATA_OFFSET`] is XORed by it.
pub const XOR_KEY: u8 = 0xF7;

/// Header offset holding the little-endian pointer to the table directory.
pub const OFFSET_TABLE_DIR: usize = 0x84;

/// Length of the header up to the end of the table-directory pointer.
pub const HEADER_END: usize = 0x88;

/// Size of one fixed-layout entry in the table directory.
pub const TABLE_ENTRY_SIZE: usize = 0x50;

/// Within a directory entry: offset of the cell-data pointer.
pub const ENTRY_CELL_PTR: usize = 0x40;

/// Within a directory entry: offset of the column count.
pub const ENTRY_COLUMNS: usize = 0x48;

/// Within a directory entry: offset of the row count.
pub const ENTRY_ROWS: usize = 0x4C;

/// Upper bound on the table count, to reject a misread (garbage) directory header.
///
/// A real SGBD has at most a few hundred tables; the still-obfuscated read of the count is
/// astronomically large.
pub const MAX_TABLES: u32 = 100_000;

/// Maximum bytes of a directory entry's name field.
pub const NAME_FIELD_LEN: usize = 64;

/// A decoded SGBD table: its name, column headers, and data rows.
///
/// `columns` is the table's header row; each entry of `rows` has one cell per column (cells are
/// raw strings, numbers are not parsed here).
#[derive(Debug, Clone, PartialEq, Eq)]
pub struct Table {
    /// The table name, e.g. `SG_FUNKTIONEN`.
    pub name: String,
    /// The column header cells, in order.
    pub columns: Vec<String>,
    /// The data rows (header excluded), each a vector of cells.
    pub rows: Vec<Vec<String>>,
}

/// What a [`Table`] holds, as text.
#[verifier::ext_equal]
pub struct TableView {
    pub name: Seq<char>,
    pub columns: Seq<Seq<char>>,
    pub rows: Seq<Seq<Seq<char>>>,
}

/// The texts of one row.
pub open spec fn row_view(row: Seq<String>) -> Seq<Seq<char>> {
    crate::text::text_views(row)
}

/// The texts of several rows.
pub open spec fn rows_view(rows: Seq<Vec<String>>) -> Seq<Seq<Seq<char>>> {
    Seq::new(rows.len(), |i: int| row_view(rows[i]@))
}

impl View for Table {
    type V = TableView;

    open spec fn view(&self) -> TableView {
        TableView {
            name: self.name@,
            columns: row_view(self.columns@),
            rows: rows_view(self.rows@),
        }
    }
}

/// What a list of tables holds.
pub open spec fn tables_view(tables: Seq<Table>) -> Seq<TableView> {
    Seq::new(tables.len(), |i: int| tables[i]@)
}

/// A parsed SGBD container, exposing its embedded [`Table`]s.
#[derive(Debug, Clone)]
pub struct Prg {
    tables: Vec<Table>,
}

impl View for Prg {
    type V = Seq<TableView>;

    closed spec fn view(&self) -> Seq<TableView> {
        tables_view(self.tables@)
    }
}

/// An error from parsing an SGBD file.
#[derive(Debug, Clone, PartialEq, Eq)]
pub enum SgbdError {
    /// The bytes do not start with the `@EDIABAS OBJECT` signature.
    BadMagic,
    /// The file is too short to hold the header the parser must read.
    Truncated {
        /// Minimum byte length the header requires.
        needed: usize,
        /// Actual byte length seen.
        got: usize,
    },
}

// ---------------------------------------------------------------------------
// What the bytes mean
// ---------------------------------------------------------------------------

/// The container signature.
pub open spec fn magic() -> Seq<u8> {
    seq![
        0x40u8, 0x45u8, 0x44u8, 0x49u8, 0x41u8, 0x42u8, 0x41u8, 0x53u8, 0x20u8, 0x4Fu8, 0x42u8,
        0x4Au8, 0x45u8, 0x43u8, 0x54u8,
    ]
}

/// The plain byte behind the stored byte `b` at `offset`.
pub open spec fn plain(b: u8, offset: int) -> u8 {
    if offset >= DATA_OFFSET {
        b ^ XOR_KEY
    } else {
        b
    }
}

/// The number of the four bytes, least significant first.
pub open spec fn le32(a: u8, b: u8, c: u8, d: u8) -> int {
    ((d as int * 0x100 + c as int) * 0x100 + b as int) * 0x100 + a as int
}

/// The little-endian number stored verbatim at `offset`.
pub open spec fn raw_at(bytes: Seq<u8>, offset: int) -> Option<int> {
    if 0 <= offset && offset + 4 <= bytes.len() {
        Some(le32(bytes[offset], bytes[offset + 1], bytes[offset + 2], bytes[offset + 3]))
    } else {
        None
    }
}

/// The little-endian number stored obfuscated at `offset`.
pub open spec fn plain_at(bytes: Seq<u8>, offset: int) -> Option<int> {
    if 0 <= offset && offset + 4 <= bytes.len() {
        Some(
            le32(
                plain(bytes[offset], offset),
                plain(bytes[offset + 1], offset + 1),
                plain(bytes[offset + 2], offset + 2),
                plain(bytes[offset + 3], offset + 3),
            ),
        )
    } else {
        None
    }
}

/// The first position from `i` on that holds a plain NUL, or `end` if there is none before it.
pub open spec fn nul_from(bytes: Seq<u8>, i: int, end: int) -> int
    decreases end - i,
{
    if i < end && plain(bytes[i], i) != 0 {
        nul_from(bytes, i + 1, end)
    } else {
        i
    }
}

/// The plain bytes from `from` up to `to`.
pub open spec fn plain_range(bytes: Seq<u8>, from: int, to: int) -> Seq<u8> {
    Seq::new((to - from) as nat, |k: int| plain(bytes[from + k], from + k))
}

/// Where a string that starts at `offset` and may hold `max` bytes must end at the latest.
pub open spec fn string_end(bytes: Seq<u8>, offset: int, max: int) -> int {
    if offset + max < bytes.len() {
        offset + max
    } else {
        bytes.len() as int
    }
}

/// The text of the NUL-terminated string at `offset`, of at most `max` bytes.
pub open spec fn string_at(bytes: Seq<u8>, offset: int, max: int) -> Seq<char> {
    crate::sgbd::cp1252::decoded(
        plain_range(bytes, offset, nul_from(bytes, offset, string_end(bytes, offset, max))),
    )
}

/// The first position behind the string at `offset`: behind its NUL where it has one.
pub open spec fn string_next(bytes: Seq<u8>, offset: int, max: int) -> int {
    let end = string_end(bytes, offset, max);
    let nul = nul_from(bytes, offset, end);
    if nul < end {
        nul + 1
    } else {
        nul
    }
}

/// The cells of one row that starts at `offset`, and the position behind it.
///
/// A row ends early where the file does.
pub open spec fn row_at(bytes: Seq<u8>, offset: int, columns: nat) -> (Seq<Seq<char>>, int)
    decreases columns,
{
    if columns == 0 || offset >= bytes.len() {
        (Seq::<Seq<char>>::empty(), offset)
    } else {
        let max = bytes.len() - offset;
        let rest = row_at(bytes, string_next(bytes, offset, max), (columns - 1) as nat);
        (seq![string_at(bytes, offset, max)] + rest.0, rest.1)
    }
}

/// The rows of a cell grid that starts at `offset`; rows without a cell are left out.
pub open spec fn grid_at(bytes: Seq<u8>, offset: int, columns: nat, total: nat) -> Seq<
    Seq<Seq<char>>,
>
    decreases total,
{
    if total == 0 {
        Seq::<Seq<Seq<char>>>::empty()
    } else {
        let row = row_at(bytes, offset, columns);
        let rest = grid_at(bytes, row.1, columns, (total - 1) as nat);
        if row.0.len() > 0 {
            seq![row.0] + rest
        } else {
            rest
        }
    }
}

/// The number of grid rows, header row included, that a row count stands for.
pub open spec fn total_rows(rows: int) -> nat {
    if rows + 1 <= usize::MAX {
        (rows + 1) as nat
    } else {
        usize::MAX as nat
    }
}

/// The data rows that are complete: a last row that the file ends inside of is left out.
pub open spec fn complete_rows(rows: Seq<Seq<Seq<char>>>, columns: nat) -> Seq<Seq<Seq<char>>> {
    if rows.len() > 0 && rows.last().len() < columns {
        rows.drop_last()
    } else {
        rows
    }
}

/// A grid's first row is the header; the rest are the data rows.
pub open spec fn table_of(name: Seq<char>, grid: Seq<Seq<Seq<char>>>) -> TableView {
    if grid.len() == 0 {
        TableView { name, columns: Seq::<Seq<char>>::empty(), rows: grid }
    } else {
        TableView {
            name,
            columns: grid[0],
            rows: complete_rows(grid.skip(1), grid[0].len()),
        }
    }
}

/// The table that the directory entry at `entry` describes.
pub open spec fn table_at(bytes: Seq<u8>, entry: int) -> TableView {
    table_of(
        string_at(bytes, entry, NAME_FIELD_LEN as int),
        grid_at(
            bytes,
            plain_at(bytes, entry + ENTRY_CELL_PTR)->0,
            plain_at(bytes, entry + ENTRY_COLUMNS)->0 as nat,
            total_rows(plain_at(bytes, entry + ENTRY_ROWS)->0),
        ),
    )
}

/// The tables of up to `count` directory entries from `entry` on, as far as the file goes.
pub open spec fn tables_at(bytes: Seq<u8>, entry: int, count: nat) -> Seq<TableView>
    decreases count,
{
    if count == 0 || entry + TABLE_ENTRY_SIZE > bytes.len() {
        Seq::<TableView>::empty()
    } else {
        seq![table_at(bytes, entry)] + tables_at(
            bytes,
            entry + TABLE_ENTRY_SIZE,
            (count - 1) as nat,
        )
    }
}

/// A directory count, if it is present and within the sane upper bound.
pub open spec fn plausible(value: Option<int>) -> Option<int> {
    match value {
        Some(c) => if 1 <= c <= MAX_TABLES {
            Some(c)
        } else {
            None
        },
        None => None,
    }
}

/// The number of tables in the directory at `dir`: plaintext in some files, obfuscated in
/// others.
pub open spec fn table_count(bytes: Seq<u8>, dir: int) -> Option<int> {
    match plausible(raw_at(bytes, dir)) {
        Some(c) => Some(c),
        None => plausible(plain_at(bytes, dir)),
    }
}

/// The tables that the container `bytes` embeds.
pub open spec fn tables_of(bytes: Seq<u8>) -> Seq<TableView> {
    match raw_at(bytes, OFFSET_TABLE_DIR as int) {
        Some(dir) => if dir == 0 || dir + 4 > bytes.len() {
            Seq::<TableView>::empty()
        } else {
            match table_count(bytes, dir) {
                Some(count) => tables_at(bytes, dir + 4, count as nat),
                None => Seq::<TableView>::empty(),
            }
        },
        None => Seq::<TableView>::empty(),
    }
}

/// Whether `bytes` starts with the container signature.
pub open spec fn has_magic(bytes: Seq<u8>) -> bool {
    bytes.len() >= MAGIC_LEN && bytes.take(MAGIC_LEN as int) == magic()
}

// ---------------------------------------------------------------------------
// Laws
// ---------------------------------------------------------------------------

/// Whether every data row has one cell for each column.
pub open spec fn full_rows(table: TableView) -> bool {
    forall|i: int|
        0 <= i < table.rows.len() ==> (#[trigger] table.rows[i]).len() == table.columns.len()
}

proof fn lemma_nul_from_bounds(bytes: Seq<u8>, i: int, end: int)
    ensures
        i <= nul_from(bytes, i, end),
        i <= end ==> nul_from(bytes, i, end) <= end,
    decreases end - i,
{
    if i < end && plain(bytes[i], i) != 0 {
        lemma_nul_from_bounds(bytes, i + 1, end);
    }
}

proof fn lemma_row_shape(bytes: Seq<u8>, offset: int, columns: nat)
    ensures
        row_at(bytes, offset, columns).0.len() <= columns,
        row_at(bytes, offset, columns).0.len() < columns ==> row_at(bytes, offset, columns).1
            >= bytes.len(),
    decreases columns,
{
    if columns > 0 && offset < bytes.len() {
        let max = bytes.len() - offset;
        lemma_row_shape(bytes, string_next(bytes, offset, max), (columns - 1) as nat);
    }
}

proof fn lemma_grid_past_the_end(bytes: Seq<u8>, offset: int, columns: nat, total: nat)
    requires
        offset >= bytes.len(),
    ensures
        grid_at(bytes, offset, columns, total).len() == 0,
    decreases total,
{
    if total > 0 {
        lemma_grid_past_the_end(bytes, offset, columns, (total - 1) as nat);
    }
}

proof fn lemma_grid_shape(bytes: Seq<u8>, offset: int, columns: nat, total: nat)
    ensures
        ({
            let grid = grid_at(bytes, offset, columns, total);
            &&& forall|i: int| 0 <= i < grid.len() - 1 ==> (#[trigger] grid[i]).len() == columns
            &&& forall|i: int| 0 <= i < grid.len() ==> 1 <= (#[trigger] grid[i]).len() <= columns
        }),
    decreases total,
{
    if total > 0 {
        let row = row_at(bytes, offset, columns);
        let rest = grid_at(bytes, row.1, columns, (total - 1) as nat);
        lemma_row_shape(bytes, offset, columns);
        lemma_grid_shape(bytes, row.1, columns, (total - 1) as nat);
        if row.0.len() < columns {
            lemma_grid_past_the_end(bytes, row.1, columns, (total - 1) as nat);
        }
        if row.0.len() > 0 {
            let grid = seq![row.0] + rest;
            assert forall|i: int| 0 <= i < grid.len() implies (i < grid.len() - 1
                ==> #[trigger] grid[i].len() == columns) && 1 <= grid[i].len() <= columns by {
                if i > 0 {
                    assert(grid[i] == rest[i - 1]);
                }
            }
        }
    }
}

proof fn lemma_tables_full(bytes: Seq<u8>, entry: int, count: nat)
    ensures
        forall|i: int|
            0 <= i < tables_at(bytes, entry, count).len() ==> full_rows(
                #[trigger] tables_at(bytes, entry, count)[i],
            ),
    decreases count,
{
    if count > 0 && entry + TABLE_ENTRY_SIZE <= bytes.len() {
        let grid = grid_at(
            bytes,
            plain_at(bytes, entry + ENTRY_CELL_PTR)->0,
            plain_at(bytes, entry + ENTRY_COLUMNS)->0 as nat,
            total_rows(plain_at(bytes, entry + ENTRY_ROWS)->0),
        );
        lemma_grid_shape(
            bytes,
            plain_at(bytes, entry + ENTRY_CELL_PTR)->0,
            plain_at(bytes, entry + ENTRY_COLUMNS)->0 as nat,
            total_rows(plain_at(bytes, entry + ENTRY_ROWS)->0),
        );
        let table = table_at(bytes, entry);
        if grid.len() > 0 {
            assert forall|i: int| 0 <= i < table.rows.len() implies (#[trigger] table.rows[i]).len()
                == table.columns.len() by {
                assert(table.rows[i] == grid[i + 1]);
                assert(grid[0].len() == table.columns.len());
            }
        }
        assert(full_rows(table));
        lemma_tables_full(bytes, entry + TABLE_ENTRY_SIZE, (count - 1) as nat);
        let rest = tables_at(bytes, entry + TABLE_ENTRY_SIZE, (count - 1) as nat);
        assert forall|i: int| 0 <= i < tables_at(bytes, entry, count).len() implies full_rows(
            #[trigger] tables_at(bytes, entry, count)[i],
        ) by {
            if i > 0 {
                assert(tables_at(bytes, entry, count)[i] == rest[i - 1]);
            }
        }
    }
}

/// In every table of every container, one that is cut off inside a row included, each data row
/// has one cell per column.
pub proof fn law_rows_have_one_cell_per_column(bytes: Seq<u8>)
    ensures
        forall|i: int| 0 <= i < tables_of(bytes).len() ==> full_rows(#[trigger] tables_of(bytes)[i]),
{
    match raw_at(bytes, OFFSET_TABLE_DIR as int) {
        Some(dir) => {
            match table_count(bytes, dir) {
                Some(count) => {
                    lemma_tables_full(bytes, dir + 4, count as nat);
                },
                None => {},
            }
        },
        None => {},
    }
}

// ---------------------------------------------------------------------------
// How tables are laid out
// ---------------------------------------------------------------------------

/// Whether a text can be stored in a cell: every character has a CP1252 byte, and none is NUL.
pub open spec fn storable(t: Seq<char>) -> bool {
    forall|i: int|
        0 <= i < t.len() ==> crate::sgbd::cp1252::representable(#[trigger] t[i]) && t[i] != '\0'
}

/// The bytes of a stored text: its CP1252 bytes and a NUL.
pub open spec fn stored_text(t: Seq<char>) -> Seq<u8> {
    crate::sgbd::cp1252::encoded(t).push(0u8)
}

/// The bytes of a stored row: its cells, one behind the other.
pub open spec fn stored_row(row: Seq<Seq<char>>) -> Seq<u8>
    decreases row.len(),
{
    if row.len() == 0 {
        Seq::<u8>::empty()
    } else {
        stored_text(row[0]) + stored_row(row.skip(1))
    }
}

/// The bytes of a stored grid: its rows, one behind the other.
pub open spec fn stored_grid(grid: Seq<Seq<Seq<char>>>) -> Seq<u8>
    decreases grid.len(),
{
    if grid.len() == 0 {
        Seq::<u8>::empty()
    } else {
        stored_row(grid[0]) + stored_grid(grid.skip(1))
    }
}

/// Whether the plain bytes at `offset` are `content`.
pub open spec fn stands_at(bytes: Seq<u8>, offset: int, content: Seq<u8>) -> bool {
    &&& 0 <= offset
    &&& offset + content.len() <= bytes.len()
    &&& plain_range(bytes, offset, offset + content.len()) == content
}

/// Whether a row has one storable cell per column.
pub open spec fn fills(row: Seq<Seq<char>>, columns: nat) -> bool {
    row.len() == columns && forall|i: int| 0 <= i < row.len() ==> storable(#[trigger] row[i])
}

/// A table's header row and its data rows.
pub open spec fn grid_of(table: TableView) -> Seq<Seq<Seq<char>>> {
    seq![table.columns] + table.rows
}

/// Whether a table can be stored: it has a column, a name that fits its field, and one cell per
/// column in every row.
pub open spec fn can_store(table: TableView) -> bool {
    &&& table.columns.len() > 0
    &&& table.name.len() < NAME_FIELD_LEN
    &&& storable(table.name)
    &&& forall|i: int|
        0 <= i < grid_of(table).len() ==> fills(#[trigger] grid_of(table)[i], table.columns.len())
}

/// Whether the directory entry at `entry` describes `table`, and its cells stand where it points.
pub open spec fn describes(bytes: Seq<u8>, entry: int, table: TableView) -> bool {
    &&& 0 <= entry
    &&& entry + TABLE_ENTRY_SIZE <= bytes.len()
    &&& stands_at(bytes, entry, stored_text(table.name))
    &&& plain_at(bytes, entry + ENTRY_COLUMNS) == Some(table.columns.len() as int)
    &&& plain_at(bytes, entry + ENTRY_ROWS) == Some(table.rows.len() as int)
    &&& plain_at(bytes, entry + ENTRY_CELL_PTR) is Some
    &&& stands_at(
        bytes,
        plain_at(bytes, entry + ENTRY_CELL_PTR)->0,
        stored_grid(grid_of(table)),
    )
}

/// Whether the container `bytes` holds a directory of exactly these tables.
pub open spec fn lays_out(bytes: Seq<u8>, tables: Seq<TableView>) -> bool {
    &&& raw_at(bytes, OFFSET_TABLE_DIR as int) is Some
    &&& ({
        let dir = raw_at(bytes, OFFSET_TABLE_DIR as int)->0;
        &&& dir > 0
        &&& table_count(bytes, dir) == Some(tables.len() as int)
        &&& forall|i: int|
            0 <= i < tables.len() ==> can_store(#[trigger] tables[i]) && describes(
                bytes,
                dir + 4 + i * TABLE_ENTRY_SIZE,
                tables[i],
            )
    })
}

proof fn lemma_split(bytes: Seq<u8>, offset: int, a: Seq<u8>, b: Seq<u8>)
    requires
        stands_at(bytes, offset, a + b),
    ensures
        stands_at(bytes, offset, a),
        stands_at(bytes, offset + a.len(), b),
{
    let whole = plain_range(bytes, offset, offset + (a + b).len());
    assert forall|k: int| 0 <= k < a.len() implies plain_range(bytes, offset, offset + a.len())[k]
        == a[k] by {
        assert(whole[k] == (a + b)[k]);
    }
    assert(plain_range(bytes, offset, offset + a.len()) =~= a);
    let behind = offset + a.len();
    assert forall|k: int| 0 <= k < b.len() implies plain_range(bytes, behind, behind + b.len())[k]
        == b[k] by {
        assert(whole[a.len() + k] == (a + b)[a.len() + k]);
    }
    assert(plain_range(bytes, behind, behind + b.len()) =~= b);
}

proof fn lemma_nul(bytes: Seq<u8>, i: int, n: int, end: int)
    requires
        i <= n < end,
        forall|k: int| i <= k < n ==> plain(#[trigger] bytes[k], k) != 0,
        plain(bytes[n], n) == 0,
    ensures
        nul_from(bytes, i, end) == n,
    decreases n - i,
{
    if i < n {
        assert(plain(bytes[i], i) != 0);
        lemma_nul(bytes, i + 1, n, end);
    }
}

proof fn lemma_text(bytes: Seq<u8>, offset: int, t: Seq<char>, max: int)
    requires
        storable(t),
        stands_at(bytes, offset, stored_text(t)),
        t.len() < max,
    ensures
        string_at(bytes, offset, max) == t,
        string_next(bytes, offset, max) == offset + stored_text(t).len(),
{
    let code = crate::sgbd::cp1252::encoded(t);
    let stored = plain_range(bytes, offset, offset + stored_text(t).len());
    let nul = offset + t.len();
    assert forall|k: int| offset <= k < nul implies plain(#[trigger] bytes[k], k) != 0 by {
        let c = t[k - offset];
        assert(stored[k - offset] == stored_text(t)[k - offset]);
        assert(crate::sgbd::cp1252::representable(c) && c != '\0');
        assert(crate::sgbd::cp1252::char_of(crate::sgbd::cp1252::byte_of(c)) == c);
    }
    assert(stored[t.len() as int] == 0);
    lemma_nul(bytes, offset, nul, string_end(bytes, offset, max));
    assert forall|k: int| 0 <= k < t.len() implies plain_range(bytes, offset, nul)[k] == code[k] by {
        assert(stored[k] == stored_text(t)[k]);
    }
    assert(plain_range(bytes, offset, nul) =~= code);
    crate::sgbd::cp1252::law_decode_inverts_encode(t);
}

proof fn lemma_row(bytes: Seq<u8>, offset: int, row: Seq<Seq<char>>)
    requires
        forall|i: int| 0 <= i < row.len() ==> storable(#[trigger] row[i]),
        stands_at(bytes, offset, stored_row(row)),
    ensures
        row_at(bytes, offset, row.len()) == (row, offset + stored_row(row).len()),
        row.len() <= stored_row(row).len(),
    decreases row.len(),
{
    if row.len() == 0 {
        assert(row =~= Seq::<Seq<char>>::empty());
    } else {
        let more = row.skip(1);
        lemma_split(bytes, offset, stored_text(row[0]), stored_row(more));
        lemma_text(bytes, offset, row[0], bytes.len() - offset);
        assert forall|i: int| 0 <= i < more.len() implies storable(#[trigger] more[i]) by {
            assert(more[i] == row[i + 1]);
        }
        lemma_row(bytes, offset + stored_text(row[0]).len(), more);
        assert(seq![row[0]] + more =~= row);
    }
}

proof fn lemma_grid(bytes: Seq<u8>, offset: int, grid: Seq<Seq<Seq<char>>>, columns: nat)
    requires
        columns > 0,
        forall|i: int| 0 <= i < grid.len() ==> fills(#[trigger] grid[i], columns),
        stands_at(bytes, offset, stored_grid(grid)),
    ensures
        grid_at(bytes, offset, columns, grid.len()) == grid,
        grid.len() <= stored_grid(grid).len(),
    decreases grid.len(),
{
    if grid.len() == 0 {
        assert(grid =~= Seq::<Seq<Seq<char>>>::empty());
    } else {
        let more = grid.skip(1);
        assert(fills(grid[0], columns));
        lemma_split(bytes, offset, stored_row(grid[0]), stored_grid(more));
        lemma_row(bytes, offset, grid[0]);
        assert forall|i: int| 0 <= i < more.len() implies fills(#[trigger] more[i], columns) by {
            assert(more[i] == grid[i + 1]);
        }
        lemma_grid(bytes, offset + stored_row(grid[0]).len(), more, columns);
        assert(seq![grid[0]] + more =~= grid);
    }
}

proof fn lemma_described(bytes: Seq<u8>, entry: int, table: TableView)
    requires
        bytes.len() <= usize::MAX,
        can_store(table),
        describes(bytes, entry, table),
    ensures
        table_at(bytes, entry) == table,
{
    lemma_text(bytes, entry, table.name, NAME_FIELD_LEN as int);
    let cells = plain_at(bytes, entry + ENTRY_CELL_PTR)->0;
    lemma_grid(bytes, cells, grid_of(table), table.columns.len());
    assert(grid_of(table).skip(1) =~= table.rows);
    assert(total_rows(table.rows.len() as int) == grid_of(table).len());
}

proof fn lemma_laid_out(bytes: Seq<u8>, entry: int, tables: Seq<TableView>)
    requires
        bytes.len() <= usize::MAX,
        forall|i: int|
            0 <= i < tables.len() ==> can_store(#[trigger] tables[i]) && describes(
                bytes,
                entry + i * TABLE_ENTRY_SIZE,
                tables[i],
            ),
    ensures
        tables_at(bytes, entry, tables.len()) == tables,
    decreases tables.len(),
{
    if tables.len() == 0 {
        assert(tables =~= Seq::<TableView>::empty());
    } else {
        let more = tables.skip(1);
        assert(describes(bytes, entry + 0 * TABLE_ENTRY_SIZE, tables[0]));
        lemma_described(bytes, entry, tables[0]);
        let next = entry + TABLE_ENTRY_SIZE;
        assert forall|i: int| 0 <= i < more.len() implies can_store(#[trigger] more[i])
            && describes(bytes, next + i * TABLE_ENTRY_SIZE, more[i]) by {
            assert(more[i] == tables[i + 1]);
            assert(next + i * TABLE_ENTRY_SIZE == entry + (i + 1) * TABLE_ENTRY_SIZE);
        }
        lemma_laid_out(bytes, next, more);
        assert(seq![tables[0]] + more =~= tables);
    }
}

/// A container that lays out tables is read back as those tables: every name, header and cell, in
/// directory order.
pub proof fn law_laid_out_tables_are_read_back(bytes: Seq<u8>, tables: Seq<TableView>)
    requires
        bytes.len() <= usize::MAX,
        lays_out(bytes, tables),
    ensures
        tables_of(bytes) == tables,
{
    let dir = raw_at(bytes, OFFSET_TABLE_DIR as int)->0;
    lemma_laid_out(bytes, dir + 4, tables);
}

/// Obfuscation undoes itself: a stored byte, obfuscated again, is the plain byte.
pub proof fn law_obfuscation_is_an_involution(b: u8, offset: int)
    ensures
        plain(plain(b, offset), offset) == b,
{
    assert((b ^ 0xF7) ^ 0xF7 == b) by (bit_vector);
}

// ---------------------------------------------------------------------------
// Parsing
// ---------------------------------------------------------------------------

impl Prg {
    /// Parse an SGBD container from its raw bytes.
    ///
    /// [`SgbdError::BadMagic`] if the signature is missing, [`SgbdError::Truncated`] if the
    /// buffer is too short for the header.
    pub fn parse(bytes: &[u8]) -> (r: Result<Prg, SgbdError>)
        ensures
            match r {
                Ok(prg) => has_magic(bytes@) && bytes@.len() >= HEADER_END && prg@ == tables_of(
                    bytes@,
                ),
                Err(SgbdError::BadMagic) => !has_magic(bytes@),
                Err(SgbdError::Truncated { needed, got }) => has_magic(bytes@) && bytes@.len()
                    < HEADER_END && needed == HEADER_END && got == bytes@.len(),
            },
    {
        if !starts_with_magic(bytes) {
            return Err(SgbdError::BadMagic);
        }
        if bytes.len() < HEADER_END {
            return Err(SgbdError::Truncated { needed: HEADER_END, got: bytes.len() });
        }
        Ok(Prg { tables: parse_tables(bytes) })
    }

    /// Find a table by exact name, or `None` if this SGBD has no such table.
    ///
    /// Of several tables with the name it is the first.
    pub fn table(&self, name: &str) -> (r: Option<&Table>)
        ensures
            match r {
                Some(t) => exists|i: int|
                    0 <= i < self@.len() && #[trigger] self@[i] == t@ && t@.name == name@ && forall|
                        j: int,
                    |
                        0 <= j < i ==> (#[trigger] self@[j]).name != name@,
                None => forall|j: int| 0 <= j < self@.len() ==> (#[trigger] self@[j]).name != name@,
            },
    {
        let mut i: usize = 0;
        while i < self.tables.len()
            invariant
                i <= self.tables.len(),
                forall|j: int| 0 <= j < i ==> (#[trigger] self@[j]).name != name@,
            decreases self.tables.len() - i,
        {
            if same_text(self.tables[i].name.as_str(), name) {
                assert(self@[i as int] == self.tables@[i as int]@);
                return Some(&self.tables[i]);
            }
            assert(self@[i as int] == self.tables@[i as int]@);
            i = i + 1;
        }
        None
    }

    /// All tables in the container, in directory order.
    pub fn tables(&self) -> (r: &[Table])
        ensures
            tables_view(r@) == self@,
    {
        self.tables.as_slice()
    }
}

/// Whether `bytes` starts with the container signature.
fn starts_with_magic(bytes: &[u8]) -> (r: bool)
    ensures
        r == has_magic(bytes@),
{
    if bytes.len() < MAGIC_LEN {
        return false;
    }
    let mut i: usize = 0;
    while i < MAGIC_LEN
        invariant
            i <= MAGIC_LEN <= bytes.len(),
            forall|k: int| 0 <= k < i ==> bytes@[k] == magic()[k],
        decreases MAGIC_LEN - i,
    {
        if bytes[i] != MAGIC[i] {
            assert(MAGIC@ =~= magic());
            assert(bytes@.take(MAGIC_LEN as int)[i as int] != magic()[i as int]);
            return false;
        }
        assert(MAGIC@ =~= magic());
        i = i + 1;
    }
    assert(bytes@.take(MAGIC_LEN as int) =~= magic());
    true
}

/// De-obfuscate one byte: bytes from [`DATA_OFFSET`] onward are XORed by [`XOR_KEY`].
pub fn deobfuscate(byte: u8, offset: usize) -> (r: u8)
    ensures
        r == plain(byte, offset as int),
{
    if offset >= DATA_OFFSET {
        byte ^ XOR_KEY
    } else {
        byte
    }
}

/// Combines four bytes, least significant first.
fn join_le32(a: u8, b: u8, c: u8, d: u8) -> (r: u32)
    ensures
        r == le32(a, b, c, d),
{
    ((d as u32 * 0x100 + c as u32) * 0x100 + b as u32) * 0x100 + a as u32
}

/// Read a little-endian `u32` verbatim (header pointers and the directory count).
pub fn raw_u32(bytes: &[u8], offset: usize) -> (r: Option<u32>)
    ensures
        match r {
            Some(v) => raw_at(bytes@, offset as int) == Some(v as int),
            None => raw_at(bytes@, offset as int) is None,
        },
{
    if bytes.len() < 4 || offset > bytes.len() - 4 {
        return None;
    }
    Some(join_le32(bytes[offset], bytes[offset + 1], bytes[offset + 2], bytes[offset + 3]))
}

/// Read a little-endian `u32`, de-obfuscating each byte by its absolute offset.
pub fn deobf_u32(bytes: &[u8], offset: usize) -> (r: Option<u32>)
    ensures
        match r {
            Some(v) => plain_at(bytes@, offset as int) == Some(v as int),
            None => plain_at(bytes@, offset as int) is None,
        },
{
    if bytes.len() < 4 || offset > bytes.len() - 4 {
        return None;
    }
    Some(
        join_le32(
            deobfuscate(bytes[offset], offset),
            deobfuscate(bytes[offset + 1], offset + 1),
            deobfuscate(bytes[offset + 2], offset + 2),
            deobfuscate(bytes[offset + 3], offset + 3),
        ),
    )
}

/// Read a NUL-terminated, de-obfuscated CP1252 string capped at `max` bytes.
///
/// Returns the decoded text and the bytes consumed (including the terminator when one is found
/// within range), so a caller can advance to the next cell. Beyond the file there is nothing to
/// read, and nothing is consumed.
pub fn read_string(bytes: &[u8], offset: usize, max: usize) -> (r: (String, usize))
    ensures
        offset <= bytes@.len() ==> {
            &&& r.0@ == string_at(bytes@, offset as int, max as int)
            &&& offset + r.1 == string_next(bytes@, offset as int, max as int)
            &&& offset + r.1 <= bytes@.len()
            &&& offset < bytes@.len() && max > 0 ==> r.1 > 0
        },
        offset > bytes@.len() ==> r.0@ == Seq::<char>::empty() && r.1 == 0,
{
    let mut raw: Vec<u8> = Vec::new();
    if offset > bytes.len() {
        let text = decode(raw.as_slice());
        assert(text@ =~= Seq::<char>::empty());
        return (text, 0);
    }
    let end: usize = if max < bytes.len() - offset {
        offset + max
    } else {
        bytes.len()
    };
    assert(end == string_end(bytes@, offset as int, max as int));
    let mut i: usize = offset;
    while i < end && deobfuscate(bytes[i], i) != 0
        invariant
            offset <= i <= end <= bytes.len(),
            raw@ == plain_range(bytes@, offset as int, i as int),
            nul_from(bytes@, offset as int, end as int) == nul_from(
                bytes@,
                i as int,
                end as int,
            ),
        decreases end - i,
    {
        raw.push(deobfuscate(bytes[i], i));
        assert(raw@ =~= plain_range(bytes@, offset as int, i + 1));
        i = i + 1;
    }
    assert(nul_from(bytes@, offset as int, end as int) == i);
    let text = decode(raw.as_slice());
    if i < end {
        i = i + 1;
    }
    (text, i - offset)
}

/// Accept a directory count only when present and within the sane upper bound.
pub fn plausible_count(value: Option<u32>) -> (r: Option<u32>)
    ensures
        match (value, r) {
            (Some(c), Some(d)) => c == d && 1 <= c <= MAX_TABLES,
            (Some(c), None) => !(1 <= c <= MAX_TABLES),
            (None, Some(_)) => false,
            (None, None) => true,
        },
{
    match value {
        Some(c) => if 1 <= c && c <= MAX_TABLES {
            Some(c)
        } else {
            None
        },
        None => None,
    }
}

/// Read the cell grid: `rows + 1` rows (header first) of `columns` NUL-terminated cells.
pub fn parse_cells(bytes: &[u8], start: usize, columns: usize, rows: usize) -> (r: Vec<Vec<String>>)
    ensures
        rows_view(r@) == grid_at(bytes@, start as int, columns as nat, total_rows(rows as int)),
{
    let mut grid: Vec<Vec<String>> = Vec::new();
    let mut offset: usize = start;
    let total: usize = rows.saturating_add(1);  // header row plus data rows
    let mut n: usize = 0;
    let ghost whole = grid_at(bytes@, start as int, columns as nat, total as nat);
    assert(rows_view(grid@) =~= Seq::<Seq<Seq<char>>>::empty());
    assert(Seq::<Seq<Seq<char>>>::empty() + whole =~= whole);
    while n < total
        invariant
            n <= total,
            rows_view(grid@) + grid_at(bytes@, offset as int, columns as nat, (total - n) as nat)
                == whole,
        decreases total - n,
    {
        let mut row: Vec<String> = Vec::new();
        let mut k: usize = 0;
        let ghost row_start = offset as int;
        let ghost cells = row_at(bytes@, row_start, columns as nat);
        assert(row_view(row@) =~= Seq::<Seq<char>>::empty());
        assert(Seq::<Seq<char>>::empty() + cells.0 =~= cells.0);
        while k < columns && offset < bytes.len()
            invariant
                k <= columns,
                cells == row_at(bytes@, row_start, columns as nat),
                cells.0 == row_view(row@) + row_at(
                    bytes@,
                    offset as int,
                    (columns - k) as nat,
                ).0,
                cells.1 == row_at(bytes@, offset as int, (columns - k) as nat).1,
            decreases columns - k,
        {
            let ghost before = row_view(row@);
            let (cell, consumed) = read_string(bytes, offset, bytes.len() - offset);
            let ghost next = row_at(bytes@, offset + consumed, (columns - k - 1) as nat);
            assert(row_at(bytes@, offset as int, (columns - k) as nat).0 == seq![cell@] + next.0);
            row.push(cell);
            assert(row_view(row@) =~= before.push(cell@));
            assert(before + (seq![cell@] + next.0) =~= row_view(row@) + next.0);
            offset = offset + consumed;
            k = k + 1;
        }
        assert(row_at(bytes@, offset as int, (columns - k) as nat) == (
            Seq::<Seq<char>>::empty(),
            offset as int,
        ));
        assert(row_view(row@) =~= cells.0);
        let ghost before = rows_view(grid@);
        let ghost rest = grid_at(bytes@, offset as int, columns as nat, (total - n - 1) as nat);
        if row.len() > 0 {
            grid.push(row);
            assert(rows_view(grid@) =~= before.push(cells.0));
            assert(before + (seq![cells.0] + rest) =~= rows_view(grid@) + rest);
        }
        n = n + 1;
    }
    assert(rows_view(grid@) + Seq::<Seq<Seq<char>>>::empty() =~= rows_view(grid@));
    grid
}

/// Reads the table of the directory entry at `entry`.
fn parse_entry(bytes: &[u8], entry: usize) -> (r: Table)
    requires
        entry + TABLE_ENTRY_SIZE <= bytes@.len(),
    ensures
        r@ == table_at(bytes@, entry as int),
{
    assert(entry + TABLE_ENTRY_SIZE <= bytes.len());
    let (name, _) = read_string(bytes, entry, NAME_FIELD_LEN);
    let cell_ptr: usize = deobf_u32(bytes, entry + ENTRY_CELL_PTR).unwrap_or(0) as usize;
    let columns: usize = deobf_u32(bytes, entry + ENTRY_COLUMNS).unwrap_or(0) as usize;
    let rows: usize = deobf_u32(bytes, entry + ENTRY_ROWS).unwrap_or(0) as usize;
    let mut cells = parse_cells(bytes, cell_ptr, columns, rows);
    let ghost grid = rows_view(cells@);
    let header: Vec<String> = if cells.len() == 0 {
        Vec::new()
    } else {
        cells.remove(0)
    };
    let ghost data = rows_view(cells@);
    assert(grid.len() > 0 ==> data =~= grid.skip(1));
    if cells.len() > 0 && cells[cells.len() - 1].len() < header.len() {
        assert(data.last() == row_view(cells@.last()@));
        cells.pop();
        assert(rows_view(cells@) =~= data.drop_last());
    } else if cells.len() > 0 {
        assert(data.last() == row_view(cells@.last()@));
    }
    let table = Table { name, columns: header, rows: cells };
    proof {
        if grid.len() == 0 {
            assert(table@.columns =~= Seq::<Seq<char>>::empty());
            assert(table@.rows =~= grid);
        } else {
            assert(table@.columns =~= grid[0]);
            assert(table@.rows =~= complete_rows(grid.skip(1), grid[0].len()));
        }
        assert(table@ =~= table_at(bytes@, entry as int));
    }
    table
}

/// Parse the table directory pointed to from [`OFFSET_TABLE_DIR`] into [`Table`]s.
pub fn parse_tables(bytes: &[u8]) -> (r: Vec<Table>)
    ensures
        tables_view(r@) == tables_of(bytes@),
{
    let mut tables: Vec<Table> = Vec::new();
    assert(tables_view(tables@) =~= Seq::<TableView>::empty());
    let dir: usize = match raw_u32(bytes, OFFSET_TABLE_DIR) {
        Some(v) => v as usize,
        None => {
            return tables;
        },
    };
    if dir == 0 || bytes.len() < 4 || dir > bytes.len() - 4 {
        return tables;
    }
    // The count is plaintext in some files and obfuscated in others; accept whichever read is
    // plausible (a still-obfuscated misread dwarfs the bound).
    let count: u32 = match plausible_count(raw_u32(bytes, dir)) {
        Some(c) => c,
        None => match plausible_count(deobf_u32(bytes, dir)) {
            Some(c) => c,
            None => {
                return tables;
            },
        },
    };
    let mut entry: usize = dir + 4;
    let mut n: u32 = 0;
    let ghost whole = tables_at(bytes@, entry as int, count as nat);
    assert(Seq::<TableView>::empty() + whole =~= whole);
    while n < count && TABLE_ENTRY_SIZE <= bytes.len() && entry <= bytes.len() - TABLE_ENTRY_SIZE
        invariant
            n <= count,
            tables_view(tables@) + tables_at(bytes@, entry as int, (count - n) as nat) == whole,
        decreases count - n,
    {
        let ghost before = tables_view(tables@);
        let table = parse_entry(bytes, entry);
        let ghost rest = tables_at(bytes@, entry + TABLE_ENTRY_SIZE, (count - n - 1) as nat);
        tables.push(table);
        assert(tables_view(tables@) =~= before.push(table@));
        assert(before + (seq![table@] + rest) =~= tables_view(tables@) + rest);
        entry = entry + TABLE_ENTRY_SIZE;
        n = n + 1;
    }
    assert(tables_view(tables@) + Seq::<TableView>::empty() =~= tables_view(tables@));
    tables
}

/// A container is told by the fifteen characters that it starts with.
pub proof fn law_a_container_starts_with_its_signature(bytes: Seq<u8>)
    ensures
        has_magic(bytes) <==> bytes.len() >= 15 && forall|i: int|
            0 <= i < 15 ==> (#[trigger] bytes[i] as char) == "@EDIABAS OBJECT"@[i],
{
    reveal_strlit("@EDIABAS OBJECT");
    let signature = "@EDIABAS OBJECT"@;
    let signed = magic();
    assert(signature.len() == 15 && signed.len() == 15);
    assert forall|i: int| 0 <= i < 15 implies (#[trigger] signed[i]) as char == signature[i] by {}
    if bytes.len() >= 15 {
        let front = bytes.take(15);
        if front == signed {
            assert forall|i: int| 0 <= i < 15 implies (#[trigger] bytes[i] as char)
                == signature[i] by {
                assert(front[i] == bytes[i]);
            }
        }
        if forall|i: int| 0 <= i < 15 ==> (#[trigger] bytes[i] as char) == signature[i] {
            assert forall|i: int| 0 <= i < 15 implies front[i] == signed[i] by {
                assert(bytes[i] as char == signature[i]);
                assert(signed[i] as char == signature[i]);
            }
            assert(front =~= signed);
        }
    }
}

/// A byte is masked from offset `0xA0` on: there every bit of it but one is flipped. The header in
/// front of that is plain.
pub proof fn law_bytes_are_masked_behind_the_header(b: u8, offset: int)
    ensures
        offset < 0xA0 ==> plain(b, offset) == b,
        offset >= 0xA0 ==> plain(b, offset) == b ^ 0xF7,
        offset >= 0xA0 ==> plain(b, offset) != b,
{
    assert(b ^ 0xF7 != b) by (bit_vector);
}

/// Numbers are four bytes with the least significant first, verbatim or each byte unmasked; past
/// the end of the file there is none.
pub proof fn law_stored_numbers_are_little_endian(bytes: Seq<u8>, offset: int)
    ensures
        raw_at(bytes, offset) is Some <==> 0 <= offset <= bytes.len() - 4,
        raw_at(bytes, offset) matches Some(n) ==> n == bytes[offset] + 256 * bytes[offset + 1]
            + 65_536 * bytes[offset + 2] + 16_777_216 * bytes[offset + 3],
        plain_at(bytes, offset) is Some <==> 0 <= offset <= bytes.len() - 4,
        plain_at(bytes, offset) matches Some(n) ==> Some(n) == raw_at(
            plain_range(bytes, offset, offset + 4),
            0,
        ),
{
}

proof fn lemma_entries(bytes: Seq<u8>, entry: int, count: nat, i: int)
    requires
        0 <= entry,
        0 <= i < tables_at(bytes, entry, count).len(),
    ensures
        tables_at(bytes, entry, count)[i] == table_at(bytes, entry + 80 * i),
    decreases count,
{
    if count > 0 && entry + TABLE_ENTRY_SIZE <= bytes.len() && i > 0 {
        let rest = tables_at(bytes, entry + TABLE_ENTRY_SIZE, (count - 1) as nat);
        lemma_entries(bytes, entry + TABLE_ENTRY_SIZE, (count - 1) as nat, i - 1);
        assert(tables_at(bytes, entry, count)[i] == rest[i - 1]);
    }
}

proof fn lemma_entries_that_fit(bytes: Seq<u8>, entry: int, count: nat)
    requires
        0 <= entry,
    ensures
        entry + 80 * count <= bytes.len() ==> tables_at(bytes, entry, count).len() == count,
        count > 0 && entry + 80 * count > bytes.len() ==> tables_at(bytes, entry, count).len()
            < count,
        entry + 80 * tables_at(bytes, entry, count).len() <= bytes.len() || tables_at(
            bytes,
            entry,
            count,
        ).len() == 0,
        tables_at(bytes, entry, count).len() < count ==> bytes.len() < entry + 80 * (tables_at(
            bytes,
            entry,
            count,
        ).len() + 1),
    decreases count,
{
    if count > 0 && entry + TABLE_ENTRY_SIZE <= bytes.len() {
        lemma_entries_that_fit(bytes, entry + TABLE_ENTRY_SIZE, (count - 1) as nat);
    }
}

/// What a directory holds: the file's pointer at `0x84` leads to the number of entries, and each
/// entry of eighty bytes behind it gives a table its name, the place of its cells, its columns and
/// its rows. An entry that the file ends inside of, and those behind it, are left out.
pub proof fn law_a_directory_entry_describes_its_table(bytes: Seq<u8>, dir: int, count: int, i: int)
    requires
        raw_at(bytes, 0x84) == Some(dir),
        0 < dir,
        dir + 4 <= bytes.len(),
        (raw_at(bytes, dir) == Some(count) && 1 <= count <= 100_000) || (raw_at(
            bytes,
            dir,
        ) matches Some(other) && !(1 <= other <= 100_000) && plain_at(bytes, dir) == Some(count)
            && 1 <= count <= 100_000),
    ensures
        tables_of(bytes).len() <= count,
        0 <= i < count && dir + 4 + 80 * (i + 1) <= bytes.len() ==> i < tables_of(bytes).len(),
        i < tables_of(bytes).len() && 0 <= i ==> dir + 4 + 80 * (i + 1) <= bytes.len(),
        0 <= i < tables_of(bytes).len() ==> {
            let entry = dir + 4 + 80 * i;
            tables_of(bytes)[i] == table_of(
                string_at(bytes, entry, 64),
                grid_at(
                    bytes,
                    plain_at(bytes, entry + 0x40)->0,
                    plain_at(bytes, entry + 0x48)->0 as nat,
                    total_rows(plain_at(bytes, entry + 0x4C)->0),
                ),
            )
        },
{
    assert(table_count(bytes, dir) == Some(count));
    assert(tables_of(bytes) == tables_at(bytes, dir + 4, count as nat));
    lemma_entries_that_fit(bytes, dir + 4, count as nat);
    if 0 <= i < tables_of(bytes).len() {
        lemma_entries(bytes, dir + 4, count as nat, i);
    }
}

/// Without a directory, or with a count of entries that is nought or absurd, there are no tables.
pub proof fn law_without_a_plausible_directory_there_are_no_tables(bytes: Seq<u8>)
    ensures
        raw_at(bytes, 0x84) is None ==> tables_of(bytes).len() == 0,
        raw_at(bytes, 0x84) matches Some(dir) ==> (dir == 0 || dir + 4 > bytes.len() || (!(raw_at(
            bytes,
            dir,
        ) matches Some(c) && 1 <= c <= 100_000) && !(plain_at(bytes, dir) matches Some(c) && 1 <= c
            <= 100_000))) ==> tables_of(bytes).len() == 0,
{
}

/// The header row comes on top of the rows that an entry counts.
pub proof fn law_the_header_row_is_not_counted(rows: int)
    requires
        0 <= rows < usize::MAX,
    ensures
        total_rows(rows) == rows + 1,
{
}

proof fn lemma_no_nul(bytes: Seq<u8>, i: int, end: int)
    requires
        i <= end,
        forall|k: int| i <= k < end ==> plain(#[trigger] bytes[k], k) != 0,
    ensures
        nul_from(bytes, i, end) == end,
    decreases end - i,
{
    if i < end {
        assert(plain(bytes[i], i) != 0);
        lemma_no_nul(bytes, i + 1, end);
    }
}

/// A stored string ends at its first NUL, which it does not hold; without one it ends at its limit
/// or where the file does. What follows it starts behind the NUL.
pub proof fn law_a_string_ends_at_its_nul_or_its_limit(
    bytes: Seq<u8>,
    offset: int,
    t: Seq<char>,
    max: int,
)
    requires
        0 <= offset,
        storable(t),
    ensures
        t.len() < max && stands_at(bytes, offset, stored_text(t)) ==> string_at(bytes, offset, max)
            == t && string_next(bytes, offset, max) == offset + t.len() + 1,
        stands_at(bytes, offset, crate::sgbd::cp1252::encoded(t)) && (t.len() == max || (t.len()
            < max && offset + t.len() == bytes.len())) ==> string_at(bytes, offset, max) == t
            && string_next(bytes, offset, max) == offset + t.len(),
{
    if t.len() < max && stands_at(bytes, offset, stored_text(t)) {
        lemma_text(bytes, offset, t, max);
    }
    let code = crate::sgbd::cp1252::encoded(t);
    if stands_at(bytes, offset, code) && (t.len() == max || (t.len() < max && offset + t.len()
        == bytes.len())) {
        let end = string_end(bytes, offset, max);
        assert(end == offset + t.len());
        let stored = plain_range(bytes, offset, offset + code.len());
        assert forall|k: int| offset <= k < end implies plain(#[trigger] bytes[k], k) != 0 by {
            let c = t[k - offset];
            assert(stored[k - offset] == code[k - offset]);
            assert(crate::sgbd::cp1252::representable(c) && c != '\0');
            assert(crate::sgbd::cp1252::char_of(crate::sgbd::cp1252::byte_of(c)) == c);
        }
        lemma_no_nul(bytes, offset, end);
        assert(plain_range(bytes, offset, end) == code);
        crate::sgbd::cp1252::law_decode_inverts_encode(t);
    }
}

proof fn lemma_cut_row(bytes: Seq<u8>, offset: int, cells: Seq<Seq<char>>, columns: nat)
    requires
        cells.len() <= columns,
        forall|i: int| 0 <= i < cells.len() ==> storable(#[trigger] cells[i]),
        stands_at(bytes, offset, stored_row(cells)),
        offset + stored_row(cells).len() == bytes.len(),
    ensures
        row_at(bytes, offset, columns).0 == cells,
        row_at(bytes, offset, columns).1 >= bytes.len(),
    decreases cells.len(),
{
    if cells.len() == 0 {
        assert(cells =~= Seq::<Seq<char>>::empty());
    } else {
        let more = cells.skip(1);
        lemma_split(bytes, offset, stored_text(cells[0]), stored_row(more));
        lemma_text(bytes, offset, cells[0], bytes.len() - offset);
        assert forall|i: int| 0 <= i < more.len() implies storable(#[trigger] more[i]) by {
            assert(more[i] == cells[i + 1]);
        }
        lemma_cut_row(
            bytes,
            offset + stored_text(cells[0]).len(),
            more,
            (columns - 1) as nat,
        );
        assert(seq![cells[0]] + more =~= cells);
    }
}

proof fn lemma_cut_grid(
    bytes: Seq<u8>,
    offset: int,
    grid: Seq<Seq<Seq<char>>>,
    cells: Seq<Seq<char>>,
    columns: nat,
    total: nat,
)
    requires
        columns > 0,
        grid.len() < total,
        cells.len() < columns,
        forall|i: int| 0 <= i < grid.len() ==> fills(#[trigger] grid[i], columns),
        forall|i: int| 0 <= i < cells.len() ==> storable(#[trigger] cells[i]),
        stands_at(bytes, offset, stored_grid(grid) + stored_row(cells)),
        offset + stored_grid(grid).len() + stored_row(cells).len() == bytes.len(),
    ensures
        grid_at(bytes, offset, columns, total) == (if cells.len() > 0 {
            grid.push(cells)
        } else {
            grid
        }),
    decreases grid.len(),
{
    if grid.len() == 0 {
        assert(stored_grid(grid) + stored_row(cells) =~= stored_row(cells));
        lemma_cut_row(bytes, offset, cells, columns);
        lemma_grid_past_the_end(
            bytes,
            row_at(bytes, offset, columns).1,
            columns,
            (total - 1) as nat,
        );
        assert(grid_at(bytes, offset, columns, total) =~= if cells.len() > 0 {
            grid.push(cells)
        } else {
            grid
        });
    } else {
        let more = grid.skip(1);
        assert(fills(grid[0], columns));
        assert(stored_grid(grid) + stored_row(cells) =~= stored_row(grid[0]) + (stored_grid(more)
            + stored_row(cells)));
        lemma_split(bytes, offset, stored_row(grid[0]), stored_grid(more) + stored_row(cells));
        lemma_row(bytes, offset, grid[0]);
        assert forall|i: int| 0 <= i < more.len() implies fills(#[trigger] more[i], columns) by {
            assert(more[i] == grid[i + 1]);
        }
        lemma_cut_grid(
            bytes,
            offset + stored_row(grid[0]).len(),
            more,
            cells,
            columns,
            (total - 1) as nat,
        );
        assert(grid_at(bytes, offset, columns, total) =~= if cells.len() > 0 {
            grid.push(cells)
        } else {
            grid
        });
    }
}

/// A file that ends inside a row loses that row and those that were to follow, and nothing else: the
/// table keeps its header and every row that is whole.
pub proof fn law_a_cut_off_row_is_left_out(
    bytes: Seq<u8>,
    offset: int,
    table: TableView,
    cells: Seq<Seq<char>>,
    rows: int,
)
    requires
        can_store(table),
        table.rows.len() < rows < usize::MAX,
        cells.len() < table.columns.len(),
        forall|i: int| 0 <= i < cells.len() ==> storable(#[trigger] cells[i]),
        stands_at(bytes, offset, stored_grid(grid_of(table)) + stored_row(cells)),
        offset + stored_grid(grid_of(table)).len() + stored_row(cells).len() == bytes.len(),
    ensures
        table_of(
            table.name,
            grid_at(bytes, offset, table.columns.len(), total_rows(rows)),
        ) == table,
{
    let grid = grid_of(table);
    lemma_cut_grid(bytes, offset, grid, cells, table.columns.len(), total_rows(rows));
    assert(grid.skip(1) =~= table.rows);
    assert(grid[0] == table.columns);
    if cells.len() > 0 {
        let cut = grid.push(cells);
        assert(cut.skip(1) =~= table.rows.push(cells));
        assert(cut[0] == table.columns);
        assert(complete_rows(table.rows.push(cells), table.columns.len()) =~= table.rows);
    } else if table.rows.len() > 0 {
        assert(grid[grid.len() - 1] == table.rows.last());
        assert(fills(grid[grid.len() - 1], table.columns.len()));
    }
}

/// A table keeps its name whatever its cells are; without any it has no column and no row.
pub proof fn law_a_table_without_cells_keeps_its_name(
    name: Seq<char>,
    grid: Seq<Seq<Seq<char>>>,
)
    ensures
        table_of(name, grid).name == name,
        grid.len() == 0 ==> table_of(name, grid).columns.len() == 0 && table_of(
            name,
            grid,
        ).rows.len() == 0,
        grid.len() > 0 ==> table_of(name, grid).columns == grid[0],
{
}

/// The model of a value says of each field what the field holds, and a list is modelled item by
/// item, in order.
pub proof fn law_a_model_shows_what_its_value_holds(table: Table, tables: Seq<Table>)
    ensures
        table@.name == table.name@,
        table@.columns == row_view(table.columns@),
        table@.rows == rows_view(table.rows@),
        tables_view(tables).len() == tables.len(),
        forall|i: int| 0 <= i < tables.len() ==> #[trigger] tables_view(tables)[i] == tables[i]@,
{
}

} // verus!
