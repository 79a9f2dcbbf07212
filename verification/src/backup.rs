//! Backups of the workspace: what they hold, how tables are written to them and read from them.

use vstd::prelude::*;

use crate::alerting::store::rows_view;
use crate::config::{keep_file_chars, safe_chars, PluginConfigEntry, PluginConfigEntryView};
use crate::json::{
    all_digits, digits_value, is_digit, items_view, json_read, json_text, json_text_of, json_view,
    lemma_items_view, parse_bounded, parse_json, texts_view, unsigned_value, Json, JsonView,
};
use crate::order::{in_order, sort_list, sorted, sorting_keeps_every_value, strict_weak};
use crate::text::{
    chars_of, complaint, decimal, decimal_seq, digit, ends_with, ends_with_seq, has_char,
    is_blank, is_blank_seq, join, join3, same, slice_text,
};
use crate::values::signed_value;
use crate::words::{join_texts, joined, signed_seq};

verus! {

/// The tables that a backup holds.
pub open spec fn tables_backed_up() -> Seq<Seq<char>> {
    seq![
        "plugins"@,
        "plugin_permissions"@,
        "capabilities"@,
        "plugin_ratings"@,
        "plugin_channel"@,
        "plugin_health_config"@,
        "settings_kv"@,
    ]
}

/// The tables that a backup holds: what makes up the workspace, without its history.
pub fn backup_tables() -> (r: Vec<String>)
    ensures
        texts_view(r@) == tables_backed_up(),
{
    let r: Vec<String> = vec![
        "plugins".to_string(),
        "plugin_permissions".to_string(),
        "capabilities".to_string(),
        "plugin_ratings".to_string(),
        "plugin_channel".to_string(),
        "plugin_health_config".to_string(),
        "settings_kv".to_string(),
    ];
    assert(texts_view(r@) =~= tables_backed_up());
    r
}

/// A field of a table.
#[derive(Debug)]
pub enum Cell {
    Null,
    Integer(i64),
    /// A number that is no integer, by its decimal digits.
    Real(String),
    Text(String),
    /// Bytes, of which only the number is kept.
    Blob(usize),
    /// A field that could not be read.
    Unreadable,
}

/// What a [`Cell`] holds.
pub enum CellView {
    Null,
    Integer(i64),
    Real(Seq<char>),
    Text(Seq<char>),
    Blob(nat),
    Unreadable,
}

impl View for Cell {
    type V = CellView;

    open spec fn view(&self) -> CellView {
        match self {
            Cell::Null => CellView::Null,
            Cell::Integer(n) => CellView::Integer(*n),
            Cell::Real(t) => CellView::Real(t@),
            Cell::Text(t) => CellView::Text(t@),
            Cell::Blob(n) => CellView::Blob(*n as nat),
            Cell::Unreadable => CellView::Unreadable,
        }
    }
}

/// A field as it is written to a backup.
pub open spec fn cell_value(c: CellView) -> JsonView {
    match c {
        CellView::Null => JsonView::Null,
        CellView::Integer(n) => JsonView::Number(signed_seq(n as int)),
        CellView::Real(t) => JsonView::Number(t),
        CellView::Text(t) => JsonView::Text(t),
        CellView::Blob(n) => JsonView::Text("<blob "@ + decimal_seq(n) + " bytes>"@),
        CellView::Unreadable => JsonView::Null,
    }
}

/// A field as it is written to a backup: of bytes only their number, of what could not be read
/// nothing.
pub fn dump_cell(c: &Cell) -> (r: Json)
    ensures
        r@ == cell_value(c@),
{
    match c {
        Cell::Null => Json::Null,
        Cell::Integer(n) => signed_value(*n),
        Cell::Real(t) => Json::Number(t.clone()),
        Cell::Text(t) => Json::Text(t.clone()),
        Cell::Blob(n) => Json::Text(join3("<blob ", decimal(*n as u64).as_str(), " bytes>")),
        Cell::Unreadable => Json::Null,
    }
}

/// The integer that a number of a backup is, if it is one of 64 bits.
pub open spec fn integer_in(n: Seq<char>) -> Option<i64> {
    if n.len() > 0 && n[0] == '-' {
        let digits = n.drop_first();
        if all_digits(digits) && digits_value(digits) <= 0x8000_0000_0000_0000 {
            Some((-(digits_value(digits) as int)) as i64)
        } else {
            None
        }
    } else if all_digits(n) && digits_value(n) <= 0x7fff_ffff_ffff_ffff {
        Some(digits_value(n) as i64)
    } else {
        None
    }
}

/// The field that a value of a backup stands for.
pub open spec fn value_cell(v: JsonView) -> CellView {
    match v {
        JsonView::Null => CellView::Null,
        JsonView::Bool(b) => CellView::Integer(
            if b {
                1
            } else {
                0
            },
        ),
        JsonView::Number(n) => match integer_in(n) {
            Some(i) => CellView::Integer(i),
            None => CellView::Real(n),
        },
        JsonView::Text(t) => CellView::Text(t),
        _ => CellView::Text(json_text_of(v)),
    }
}

proof fn lemma_plus(s: Seq<char>, max: nat)
    requires
        s.len() > 0,
        s[0] != '+',
    ensures
        unsigned_value(s, max) == if all_digits(s) && digits_value(s) <= max {
            Some(digits_value(s))
        } else {
            None
        },
{
}

/// The integer that a number of a backup is, if it is one of 64 bits.
pub fn read_integer(n: &str) -> (r: Option<i64>)
    ensures
        r == integer_in(n@),
{
    let cs: Vec<char> = chars_of(n);
    if cs.len() == 0 {
        return None;
    }
    if cs[0] == '-' {
        let rest: String = slice_text(&cs, 1, cs.len());
        assert(rest@ =~= n@.drop_first());
        if cs.len() == 1 || cs[1] == '+' {
            assert(cs@.len() > 1 ==> rest@[0] == '+');
            assert(!all_digits(rest@));
            return None;
        }
        proof {
            lemma_plus(rest@, 0x8000_0000_0000_0000);
        }
        match parse_bounded(rest.as_str(), 0x8000_0000_0000_0000) {
            Some(v) => if v == 0x8000_0000_0000_0000 {
                Some(i64::MIN)
            } else {
                Some(-(v as i64))
            },
            None => None,
        }
    } else {
        if cs[0] == '+' {
            assert(n@[0] == '+');
            assert(!all_digits(n@));
            return None;
        }
        proof {
            lemma_plus(n@, 0x7fff_ffff_ffff_ffff);
        }
        match parse_bounded(n, 0x7fff_ffff_ffff_ffff) {
            Some(v) => Some(v as i64),
            None => None,
        }
    }
}

/// The field that a value of a backup stands for: truth values are ones and zeros, lists and objects
/// are kept as their text.
pub fn restore_cell(v: &Json) -> (r: Cell)
    ensures
        r@ == value_cell(v@),
{
    match v {
        Json::Null => Cell::Null,
        Json::Bool(b) => Cell::Integer(
            if *b {
                1
            } else {
                0
            },
        ),
        Json::Number(n) => match read_integer(n.as_str()) {
            Some(i) => Cell::Integer(i),
            None => Cell::Real(n.clone()),
        },
        Json::Text(t) => Cell::Text(t.clone()),
        _ => Cell::Text(json_text(v)),
    }
}

proof fn lemma_decimal_value(n: nat)
    ensures
        all_digits(decimal_seq(n)),
        digits_value(decimal_seq(n)) == n,
        decimal_seq(n).len() > 0,
    decreases n,
{
    let last = digit(n % 10);
    assert(last as nat == 48 + n % 10);
    if n < 10 {
        let s = decimal_seq(n);
        assert(s == seq![last]);
        assert(s.drop_last() =~= Seq::<char>::empty());
        assert(digits_value(s.drop_last()) == 0);
        assert(s.last() == last);
        assert(digits_value(s) == digits_value(s.drop_last()) * 10 + (s.last() as nat - '0' as nat));
    } else {
        lemma_decimal_value(n / 10);
        let front = decimal_seq(n / 10);
        let s = decimal_seq(n);
        assert(s == front.push(last));
        assert(s.drop_last() =~= front);
        assert forall|i: int| 0 <= i < s.len() implies is_digit(#[trigger] s[i]) by {
            if i < front.len() {
                assert(s[i] == front[i]);
            }
        }
    }
}

/// Integers and texts, and fields without content, come back from a backup as they were.
pub proof fn plain_fields_come_back(c: CellView)
    requires
        c is Null || c is Integer || c is Text,
    ensures
        value_cell(cell_value(c)) == c,
{
    if let CellView::Integer(n) = c {
        reveal_strlit("-");
        if n < 0 {
            let size = (-(n as int)) as nat;
            lemma_decimal_value(size);
            let t = signed_seq(n as int);
            assert(t[0] == '-');
            assert(t.drop_first() =~= decimal_seq(size));
        } else {
            lemma_decimal_value(n as nat);
            let t = signed_seq(n as int);
            assert(is_digit(t[0]));
        }
    }
}

/// A table in a backup, row by row.
#[derive(Debug)]
pub struct TableDump {
    pub name: String,
    pub rows: Vec<Vec<Json>>,
}

/// The rows of a table as values.
pub open spec fn rows_values(rows: Seq<Vec<Json>>) -> Seq<Seq<JsonView>> {
    Seq::new(rows.len(), |i: int| items_view(rows[i]@))
}

/// What a [`TableDump`] holds.
pub struct TableDumpView {
    pub name: Seq<char>,
    pub rows: Seq<Seq<JsonView>>,
}

impl View for TableDump {
    type V = TableDumpView;

    open spec fn view(&self) -> TableDumpView {
        TableDumpView { name: self.name@, rows: rows_values(self.rows@) }
    }
}

/// The fields of a row as they are written to a backup.
pub open spec fn row_values(cells: Seq<CellView>) -> Seq<JsonView> {
    Seq::new(cells.len(), |i: int| cell_value(cells[i]))
}

/// The fields of a row as they are written to a backup.
pub fn dump_row(cells: &Vec<Cell>) -> (r: Vec<Json>)
    ensures
        items_view(r@) == row_values(rows_view(cells@)),
{
    let ghost all = rows_view(cells@);
    let mut out: Vec<Json> = Vec::new();
    let mut i: usize = 0;
    while i < cells.len()
        invariant
            i <= cells@.len(),
            all == rows_view(cells@),
            out@.len() == i,
            forall|k: int| 0 <= k < i ==> json_view(#[trigger] out@[k]) == cell_value(all[k]),
        decreases cells@.len() - i,
    {
        let v: Json = dump_cell(&cells[i]);
        assert(json_view(v) == v@);
        out.push(v);
        i += 1;
    }
    proof {
        lemma_items_view(out@);
        assert forall|k: int| 0 <= k < out@.len() implies items_view(out@)[k] == row_values(
            all,
        )[k] by {
            assert(items_view(out@)[k] == json_view(out@[k]));
        }
    }
    assert(items_view(out@) =~= row_values(all));
    out
}

/// The fields that the values of a row stand for.
pub open spec fn values_row(row: Seq<JsonView>) -> Seq<CellView> {
    Seq::new(row.len(), |i: int| value_cell(row[i]))
}

/// The fields that the values of a row stand for.
pub fn restore_row(row: &Vec<Json>) -> (r: Vec<Cell>)
    ensures
        rows_view(r@) == values_row(items_view(row@)),
{
    let ghost all = items_view(row@);
    let mut out: Vec<Cell> = Vec::new();
    let mut i: usize = 0;
    proof {
        lemma_items_view(row@);
    }
    while i < row.len()
        invariant
            i <= row@.len(),
            all == items_view(row@),
            all.len() == row@.len(),
            forall|k: int| 0 <= k < row@.len() ==> all[k] == #[trigger] json_view(row@[k]),
            out@.len() == i,
            forall|k: int| 0 <= k < i ==> (#[trigger] out@[k])@ == value_cell(all[k]),
        decreases row@.len() - i,
    {
        assert(all[i as int] == json_view(row@[i as int]));
        assert(json_view(row@[i as int]) == row@[i as int]@);
        out.push(restore_cell(&row[i]));
        i += 1;
    }
    assert(rows_view(out@) =~= values_row(all));
    out
}

/// The marks for `n` values: `?1` to `?n`.
pub open spec fn marks(n: nat) -> Seq<Seq<char>> {
    Seq::new(n, |i: int| "?"@ + decimal_seq((i + 1) as nat))
}

/// The statement that puts a row of `n` fields into a table.
pub open spec fn insert_text(table: Seq<char>, n: nat) -> Seq<char> {
    "INSERT INTO "@ + table + " VALUES ("@ + joined(marks(n), ","@) + ")"@
}

/// How a table is restored: emptied first, then filled row by row.
#[derive(Debug)]
pub struct TablePlan {
    /// The statement that empties the table.
    pub clear: String,
    /// The statement that puts a row in; none where there is nothing to put in.
    pub insert: Option<String>,
    pub rows: Vec<Vec<Cell>>,
    /// Why it stops behind these rows, if it does.
    pub error: Option<String>,
}

/// The rows of fields.
pub open spec fn cells_view(rows: Seq<Vec<Cell>>) -> Seq<Seq<CellView>> {
    Seq::new(rows.len(), |i: int| rows_view(rows[i]@))
}

/// How many rows come before the first one of another width, counted from the `i`th on.
pub open spec fn even_rows(rows: Seq<Seq<JsonView>>, width: nat, i: int) -> int
    decreases rows.len() - i,
{
    if i < 0 || i >= rows.len() || rows[i].len() != width {
        i
    } else {
        even_rows(rows, width, i + 1)
    }
}

/// The number of fields of the first row.
pub open spec fn width_of(rows: Seq<Seq<JsonView>>) -> nat {
    if rows.len() == 0 {
        0
    } else {
        rows[0].len()
    }
}

/// How many rows of a table are put in.
pub open spec fn rows_put_in(rows: Seq<Seq<JsonView>>) -> int {
    if width_of(rows) == 0 {
        0
    } else {
        even_rows(rows, width_of(rows), 0)
    }
}

/// Why restoring a table stops, if it does.
pub open spec fn plan_error(table: Seq<char>, rows: Seq<Seq<JsonView>>) -> Option<Seq<char>> {
    let n = rows_put_in(rows);
    if width_of(rows) == 0 || n >= rows.len() {
        None
    } else {
        Some(
            "row has "@ + decimal_seq(rows[n].len()) + " cols but table "@ + table + " expects "@
                + decimal_seq(width_of(rows)),
        )
    }
}

/// The tables that hold history.
pub open spec fn history_tables() -> Seq<Seq<char>> {
    seq!["events"@, "sessions"@, "capability_stats"@]
}

/// Whether a backup is restored into a table: history is left as it is.
pub fn restores_table(table: &str) -> (r: bool)
    ensures
        r == !history_tables().contains(table@),
{
    let r: bool = !same(table, "events") && !same(table, "sessions") && !same(
        table,
        "capability_stats",
    );
    proof {
        let all = history_tables();
        assert(all[0] == "events"@ && all[1] == "sessions"@ && all[2] == "capability_stats"@);
    }
    r
}

fn insert_statement(table: &str, n: usize) -> (r: String)
    ensures
        r@ == insert_text(table@, n as nat),
{
    let mut list: Vec<String> = Vec::new();
    let mut i: usize = 0;
    while i < n
        invariant
            i <= n,
            list@.len() == i,
            forall|k: int|
                0 <= k < i ==> (#[trigger] list@[k])@ == "?"@ + decimal_seq((k + 1) as nat),
        decreases n - i,
    {
        list.push(join("?", decimal((i + 1) as u64).as_str()));
        i += 1;
    }
    assert(texts_view(list@) =~= marks(n as nat));
    let inner: String = join_texts(&list, ",");
    join(
        join3(join("INSERT INTO ", table).as_str(), " VALUES (", inner.as_str()).as_str(),
        ")",
    )
}

/// How a table is restored. The first row says how many fields each row has; a row with another
/// number ends it.
pub fn plan_table(table: &str, rows: &Vec<Vec<Json>>) -> (r: TablePlan)
    ensures
        ({
            let all = rows_values(rows@);
            &&& r.clear@ == "DELETE FROM "@ + table@
            &&& match r.insert {
                Some(s) => width_of(all) > 0 && s@ == insert_text(table@, width_of(all)),
                None => width_of(all) == 0,
            }
            &&& cells_view(r.rows@) == Seq::new(
                rows_put_in(all) as nat,
                |i: int| values_row(all[i]),
            )
            &&& match r.error {
                Some(e) => plan_error(table@, all) == Some(e@),
                None => plan_error(table@, all) is None,
            }
        }),
{
    let ghost all = rows_values(rows@);
    let clear: String = join("DELETE FROM ", table);
    let width: usize = if rows.len() == 0 {
        0
    } else {
        proof {
            lemma_items_view(rows@[0]@);
        }
        rows[0].len()
    };
    assert(width == width_of(all));
    let mut out: Vec<Vec<Cell>> = Vec::new();
    if width == 0 {
        assert(cells_view(out@) =~= Seq::new(0, |i: int| values_row(all[i])));
        return TablePlan { clear, insert: None, rows: out, error: None };
    }
    let insert: String = insert_statement(table, width);
    let mut i: usize = 0;
    while i < rows.len()
        invariant
            i <= rows@.len(),
            all == rows_values(rows@),
            width == width_of(all),
            width > 0,
            clear@ == "DELETE FROM "@ + table@,
            insert@ == insert_text(table@, width as nat),
            even_rows(all, width as nat, 0) == even_rows(all, width as nat, i as int),
            out@.len() == i,
            forall|k: int| 0 <= k < i ==> rows_view((#[trigger] out@[k])@) == values_row(all[k]),
        decreases rows@.len() - i,
    {
        proof {
            lemma_items_view(rows@[i as int]@);
            assert(all[i as int] == items_view(rows@[i as int]@));
        }
        if rows[i].len() != width {
            let e: String = join(
                join3(
                    join3("row has ", decimal(rows[i].len() as u64).as_str(), " cols but table ").as_str(),
                    table,
                    " expects ",
                ).as_str(),
                decimal(width as u64).as_str(),
            );
            assert(cells_view(out@) =~= Seq::new(
                rows_put_in(all) as nat,
                |i: int| values_row(all[i]),
            ));
            return TablePlan { clear, insert: Some(insert), rows: out, error: Some(e) };
        }
        out.push(restore_row(&rows[i]));
        i += 1;
    }
    assert(cells_view(out@) =~= Seq::new(rows_put_in(all) as nat, |i: int| values_row(all[i])));
    TablePlan { clear, insert: Some(insert), rows: out, error: None }
}

/// A table whose rows all have the same number of fields is restored as a whole.
pub proof fn even_tables_come_back(table: Seq<char>, rows: Seq<Seq<JsonView>>)
    requires
        forall|i: int| 0 <= i < rows.len() ==> (#[trigger] rows[i]).len() == width_of(rows),
        width_of(rows) > 0,
    ensures
        plan_error(table, rows) is None,
        rows_put_in(rows) == rows.len(),
{
    lemma_all_even(rows, width_of(rows), 0);
}

proof fn lemma_all_even(rows: Seq<Seq<JsonView>>, width: nat, i: int)
    requires
        0 <= i <= rows.len(),
        forall|k: int| 0 <= k < rows.len() ==> (#[trigger] rows[k]).len() == width,
    ensures
        even_rows(rows, width, i) == rows.len(),
    decreases rows.len() - i,
{
    if i < rows.len() {
        lemma_all_even(rows, width, i + 1);
    }
}

/// What a backup holds.
#[derive(Debug)]
pub struct BackupSnapshot {
    pub version: String,
    pub created_at: u64,
    pub app_version: String,
    pub tables: Vec<TableDump>,
    pub plugin_configs: Vec<PluginConfigEntry>,
    pub hotkeys: Vec<Json>,
}

/// What a [`BackupSnapshot`] holds.
pub struct BackupSnapshotView {
    pub version: Seq<char>,
    pub created_at: u64,
    pub app_version: Seq<char>,
    pub tables: Seq<TableDumpView>,
    pub plugin_configs: Seq<PluginConfigEntryView>,
    pub hotkeys: Seq<JsonView>,
}

impl View for BackupSnapshot {
    type V = BackupSnapshotView;

    open spec fn view(&self) -> BackupSnapshotView {
        BackupSnapshotView {
            version: self.version@,
            created_at: self.created_at,
            app_version: self.app_version@,
            tables: rows_view(self.tables@),
            plugin_configs: rows_view(self.plugin_configs@),
            hotkeys: items_view(self.hotkeys@),
        }
    }
}

/// A file of settings: its name and the text in it.
#[derive(Debug)]
pub struct SettingsFile {
    pub name: String,
    pub text: String,
}

/// What a [`SettingsFile`] holds.
pub struct SettingsFileView {
    pub name: Seq<char>,
    pub text: Seq<char>,
}

impl View for SettingsFile {
    type V = SettingsFileView;

    open spec fn view(&self) -> SettingsFileView {
        SettingsFileView { name: self.name@, text: self.text@ }
    }
}

/// The settings that a backup takes from a file: those of the plugin that it is named after, null
/// where the text is no JSON. Nothing is taken from other files and from empty ones.
pub open spec fn settings_in(file: SettingsFileView) -> Option<PluginConfigEntryView> {
    if file.name.len() > 5 && ends_with_seq(file.name, ".json"@) && !is_blank_seq(file.text) {
        Some(
            PluginConfigEntryView {
                id: file.name.take(file.name.len() - 5),
                config: match json_read(file.text) {
                    Ok(v) => v,
                    Err(_) => JsonView::Null,
                },
            },
        )
    } else {
        None
    }
}

/// The settings that a backup takes from files, in their order.
pub open spec fn all_settings_in(files: Seq<SettingsFileView>) -> Seq<PluginConfigEntryView>
    decreases files.len(),
{
    if files.len() == 0 {
        Seq::empty()
    } else {
        match settings_in(files.last()) {
            Some(entry) => all_settings_in(files.drop_last()).push(entry),
            None => all_settings_in(files.drop_last()),
        }
    }
}

fn take_settings(file: &SettingsFile) -> (r: Option<PluginConfigEntry>)
    ensures
        match r {
            Some(entry) => settings_in(file@) == Some(entry@),
            None => settings_in(file@) is None,
        },
{
    proof {
        reveal_strlit(".json");
    }
    if !ends_with(file.name.as_str(), ".json") || is_blank(file.text.as_str()) {
        return None;
    }
    let cs: Vec<char> = chars_of(file.name.as_str());
    if cs.len() <= 5 {
        return None;
    }
    let id: String = slice_text(&cs, 0, cs.len() - 5);
    assert(id@ =~= file@.name.take(file@.name.len() - 5));
    let config: Json = match parse_json(file.text.as_str()) {
        Ok(v) => v,
        Err(_) => Json::Null,
    };
    Some(PluginConfigEntry { id, config })
}

/// The settings of plugins that a backup takes from files, in their order.
pub fn read_plugin_configs(files: &Vec<SettingsFile>) -> (r: Vec<PluginConfigEntry>)
    ensures
        rows_view(r@) == all_settings_in(rows_view(files@)),
{
    let ghost all = rows_view(files@);
    let mut out: Vec<PluginConfigEntry> = Vec::new();
    let mut i: usize = 0;
    assert(rows_view(out@) =~= all_settings_in(all.take(0)));
    while i < files.len()
        invariant
            i <= files@.len(),
            all == rows_view(files@),
            rows_view(out@) == all_settings_in(all.take(i as int)),
        decreases files@.len() - i,
    {
        assert(all.take(i + 1).drop_last() =~= all.take(i as int));
        assert(all.take(i + 1).last() == files@[i as int]@);
        let ghost had = rows_view(out@);
        if let Some(entry) = take_settings(&files[i]) {
            let ghost taken = entry@;
            out.push(entry);
            assert(rows_view(out@) =~= had.push(taken));
        }
        i += 1;
    }
    assert(all.take(i as int) =~= all);
    out
}

/// A backup of what was read at `now`.
pub fn take_snapshot(
    tables: Vec<TableDump>,
    plugin_configs: Vec<PluginConfigEntry>,
    hotkeys: Vec<Json>,
    now: u64,
    app_version: &str,
) -> (r: BackupSnapshot)
    ensures
        r@ == (BackupSnapshotView {
            version: "1"@,
            created_at: now,
            app_version: app_version@,
            tables: rows_view(tables@),
            plugin_configs: rows_view(plugin_configs@),
            hotkeys: items_view(hotkeys@),
        }),
{
    BackupSnapshot {
        version: "1".to_string(),
        created_at: now,
        app_version: app_version.to_string(),
        tables,
        plugin_configs,
        hotkeys,
    }
}

/// How many rows of something there are.
#[derive(Debug)]
pub struct NamedCount {
    pub name: String,
    pub count: usize,
}

/// What a [`NamedCount`] holds.
pub struct NamedCountView {
    pub name: Seq<char>,
    pub count: nat,
}

impl View for NamedCount {
    type V = NamedCountView;

    open spec fn view(&self) -> NamedCountView {
        NamedCountView { name: self.name@, count: self.count as nat }
    }
}

/// What is shown of a backup.
#[derive(Debug)]
pub struct BackupMeta {
    pub filename: String,
    pub created_at: u64,
    pub size_bytes: u64,
    pub app_version: String,
    pub table_counts: Vec<NamedCount>,
    pub plugin_config_count: usize,
}

/// What a [`BackupMeta`] holds.
pub struct BackupMetaView {
    pub filename: Seq<char>,
    pub created_at: u64,
    pub size_bytes: u64,
    pub app_version: Seq<char>,
    pub table_counts: Seq<NamedCountView>,
    pub plugin_config_count: nat,
}

impl View for BackupMeta {
    type V = BackupMetaView;

    open spec fn view(&self) -> BackupMetaView {
        BackupMetaView {
            filename: self.filename@,
            created_at: self.created_at,
            size_bytes: self.size_bytes,
            app_version: self.app_version@,
            table_counts: rows_view(self.table_counts@),
            plugin_config_count: self.plugin_config_count as nat,
        }
    }
}

/// What is told once a backup is restored.
#[derive(Debug)]
pub struct RestoreReport {
    pub filename: String,
    pub table_counts: Vec<NamedCount>,
    pub plugin_config_count: usize,
}

/// How many rows each table of a backup has.
pub open spec fn table_counts(tables: Seq<TableDumpView>) -> Seq<NamedCountView> {
    Seq::new(
        tables.len(),
        |i: int| NamedCountView { name: tables[i].name, count: tables[i].rows.len() },
    )
}

/// How many rows each table of a backup has.
pub fn count_tables(tables: &Vec<TableDump>) -> (r: Vec<NamedCount>)
    ensures
        rows_view(r@) == table_counts(rows_view(tables@)),
{
    let ghost all = rows_view(tables@);
    let mut out: Vec<NamedCount> = Vec::new();
    let mut i: usize = 0;
    while i < tables.len()
        invariant
            i <= tables@.len(),
            all == rows_view(tables@),
            out@.len() == i,
            forall|k: int|
                0 <= k < i ==> (#[trigger] out@[k])@ == (NamedCountView {
                    name: all[k].name,
                    count: all[k].rows.len(),
                }),
        decreases tables@.len() - i,
    {
        assert(all[i as int] == tables@[i as int]@);
        out.push(NamedCount { name: tables[i].name.clone(), count: tables[i].rows.len() });
        i += 1;
    }
    assert(rows_view(out@) =~= table_counts(all));
    out
}

/// The name of the file of a backup.
pub open spec fn backup_name(created_at: u64, app_version: Seq<char>) -> Seq<char> {
    "backup-"@ + decimal_seq(created_at as nat) + "-"@ + safe_chars(app_version) + ".json"@
}

/// The name of the file of a backup.
pub fn backup_filename(snapshot: &BackupSnapshot) -> (r: String)
    ensures
        r@ == backup_name(snapshot@.created_at, snapshot@.app_version),
{
    let front: String = join3("backup-", decimal(snapshot.created_at).as_str(), "-");
    join3(front.as_str(), keep_file_chars(snapshot.app_version.as_str()).as_str(), ".json")
}

/// What is shown of a backup that was just made.
pub fn created_meta(snapshot: &BackupSnapshot, size: u64) -> (r: BackupMeta)
    ensures
        r@ == (BackupMetaView {
            filename: backup_name(snapshot@.created_at, snapshot@.app_version),
            created_at: snapshot@.created_at,
            size_bytes: size,
            app_version: snapshot@.app_version,
            table_counts: table_counts(snapshot@.tables).push(
                NamedCountView { name: "hotkeys"@, count: snapshot@.hotkeys.len() },
            ),
            plugin_config_count: snapshot@.plugin_configs.len(),
        }),
{
    let mut counts: Vec<NamedCount> = count_tables(&snapshot.tables);
    let ghost before = counts@;
    proof {
        lemma_items_view(snapshot.hotkeys@);
    }
    counts.push(NamedCount { name: "hotkeys".to_string(), count: snapshot.hotkeys.len() });
    assert(rows_view(counts@) =~= rows_view(before).push(counts@.last()@));
    BackupMeta {
        filename: backup_filename(snapshot),
        created_at: snapshot.created_at,
        size_bytes: size,
        app_version: snapshot.app_version.clone(),
        table_counts: counts,
        plugin_config_count: snapshot.plugin_configs.len(),
    }
}

/// What is shown of a file in the directory of backups: only its name and size where it cannot be
/// read as a backup.
pub open spec fn meta_of(filename: Seq<char>, size: u64, snapshot: Option<BackupSnapshotView>) -> BackupMetaView {
    match snapshot {
        Some(s) => BackupMetaView {
            filename,
            created_at: s.created_at,
            size_bytes: size,
            app_version: s.app_version,
            table_counts: table_counts(s.tables),
            plugin_config_count: s.plugin_configs.len(),
        },
        None => BackupMetaView {
            filename,
            created_at: 0,
            size_bytes: size,
            app_version: Seq::empty(),
            table_counts: Seq::empty(),
            plugin_config_count: 0,
        },
    }
}

/// What is shown of a file in the directory of backups.
pub fn describe_backup(filename: &str, size: u64, snapshot: Option<&BackupSnapshot>) -> (r: BackupMeta)
    ensures
        r@ == meta_of(
            filename@,
            size,
            match snapshot {
                Some(s) => Some(s@),
                None => None,
            },
        ),
{
    match snapshot {
        Some(s) => BackupMeta {
            filename: filename.to_string(),
            created_at: s.created_at,
            size_bytes: size,
            app_version: s.app_version.clone(),
            table_counts: count_tables(&s.tables),
            plugin_config_count: s.plugin_configs.len(),
        },
        None => {
            let counts: Vec<NamedCount> = Vec::new();
            let version: String = String::new();
            assert(rows_view(counts@) =~= Seq::empty());
            assert(version@ =~= Seq::<char>::empty());
            BackupMeta {
                filename: filename.to_string(),
                created_at: 0,
                size_bytes: size,
                app_version: version,
                table_counts: counts,
                plugin_config_count: 0,
            }
        },
    }
}

/// The order of backups: those made later come first.
pub open spec fn newer_first() -> spec_fn(BackupMetaView, BackupMetaView) -> bool {
    |a: BackupMetaView, b: BackupMetaView| a.created_at > b.created_at
}

/// Backups, those made later first.
pub fn list_backups(backups: Vec<BackupMeta>) -> (r: Vec<BackupMeta>)
    ensures
        rows_view(r@) == sorted(rows_view(backups@), newer_first()),
{
    let before = |a: &BackupMeta, b: &BackupMeta| -> (r: bool)
        ensures
            r == newer_first()(a@, b@),
        { a.created_at > b.created_at };
    sort_list(backups, before, Ghost(newer_first()))
}

/// No backup is listed behind one made earlier, and none is lost.
pub proof fn newer_backups_come_first(backups: Seq<BackupMetaView>)
    ensures
        in_order(sorted(backups, newer_first()), newer_first()),
        sorted(backups, newer_first()).to_multiset() == backups.to_multiset(),
{
    assert(strict_weak(newer_first()));
    sorting_keeps_every_value(backups, newer_first());
}

/// Whether a name is that of a file in the directory of backups: it leads to no other directory.
pub fn is_backup_name(filename: &str) -> (r: bool)
    ensures
        r == (filename@.len() > 0 && filename@ != "."@ && filename@ != ".."@ && !filename@.contains('/')
            && !filename@.contains('\\')),
{
    !filename.is_empty() && !same(filename, ".") && !same(filename, "..") && !has_char(filename, '/')
        && !has_char(filename, '\\')
}

/// Checks that a backup can be touched: its path lies in the directory of backups, and it is there.
pub fn check_backup(filename: &str, inside: bool, exists_there: bool) -> (r: Result<(), String>)
    ensures
        complaint(r) == if !inside {
            Some("path traversal rejected"@)
        } else if !exists_there {
            Some("backup not found: "@ + filename@)
        } else {
            None
        },
{
    if !inside {
        return Err("path traversal rejected".to_string());
    }
    if !exists_there {
        return Err(join("backup not found: ", filename));
    }
    Ok(())
}

/// Whether the hotkeys of a backup take the place of those that are there: not where it has none,
/// as backups once had none.
pub fn restores_hotkeys(snapshot: &BackupSnapshot) -> (r: bool)
    ensures
        r == (snapshot@.hotkeys.len() > 0),
{
    proof {
        lemma_items_view(snapshot.hotkeys@);
    }
    snapshot.hotkeys.len() > 0
}

/// What is told once a backup is restored, from how many rows were put into each table.
pub fn report_restore(filename: &str, counts: Vec<NamedCount>, snapshot: &BackupSnapshot) -> (r:
    RestoreReport)
    ensures
        r.filename@ == filename@,
        r.table_counts == counts,
        r.plugin_config_count == snapshot@.plugin_configs.len(),
{
    RestoreReport {
        filename: filename.to_string(),
        table_counts: counts,
        plugin_config_count: snapshot.plugin_configs.len(),
    }
}

} // verus!
