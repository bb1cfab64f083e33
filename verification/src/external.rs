//! Items of outside crates that the library's verified code uses, with the
//! contracts that Verus takes on trust.
use vstd::prelude::*;

verus! {

/// `url::ParseError`, the error of URL parsing; opaque to Verus.
#[verifier::external_type_specification]
#[verifier::external_body]
pub struct ExUrlParseError(url::ParseError);

/// Calls the `Display` of `url::ParseError`, the message that says what was
/// wrong with the URL. Nothing is claimed of the text.
#[verifier::external_body]
pub fn url_error_text(e: &url::ParseError) -> String {
    e.to_string()
}

/// Name for what chrono gives a UNIX timestamp in whole seconds: the UTC time
/// formatted with `"%Y-%m-%d %H:%M"`, or nothing when the timestamp is out of
/// chrono's range.
pub uninterp spec fn utc_minute_text(epoch: i64) -> Option<Seq<char>>;

/// Calls chrono's `DateTime::<Utc>::from_timestamp(epoch, 0)` and, when that
/// gives a time, its `format("%Y-%m-%d %H:%M")`. The contract claims that the
/// result is the named text for `epoch`: the same timestamp always gives the
/// same text, and no text when chrono reports the timestamp out of range.
#[verifier::external_body]
pub fn format_utc_minute(epoch: i64) -> (r: Option<String>)
    ensures
        match r {
            Some(s) => utc_minute_text(epoch) == Some(s@),
            None => utc_minute_text(epoch) is None,
        },
{
    chrono::DateTime::<chrono::Utc>::from_timestamp(epoch, 0).map(|dt| dt.format("%Y-%m-%d %H:%M").to_string())
}

/// Name for the serialization of the URL that the url crate parses out of
/// `input`, or nothing when `input` is not a valid absolute URL.
pub uninterp spec fn parsed_url(input: Seq<char>) -> Option<Seq<char>>;

/// Calls `url::Url::parse(input)` and hands back the parsed URL's
/// serialization. The contract claims that the result is the named
/// serialization of `input`, and an error exactly when there is none.
#[verifier::external_body]
pub fn parse_url(input: &str) -> (r: Result<String, url::ParseError>)
    ensures
        match r {
            Ok(s) => parsed_url(input@) == Some(s@),
            Err(_) => parsed_url(input@) is None,
        },
{
    url::Url::parse(input).map(String::from)
}

/// Name for the serialization of the URL that `url::Url::join` makes of the
/// URL serialized as `base` and the reference `input`, or nothing when that
/// fails.
pub uninterp spec fn joined_url(base: Seq<char>, input: Seq<char>) -> Option<Seq<char>>;

/// Calls `url::Url::join(&base, input)`, where `base` is the URL whose
/// serialization is given (read back into a `Url` with `Url::parse`, which
/// gives back the same URL for a serialization), and hands back the joined
/// URL's serialization. The contract claims that the result is the named
/// join, and an error exactly when there is none.
#[verifier::external_body]
pub fn join_url(base: &str, input: &str) -> (r: Result<String, url::ParseError>)
    ensures
        match r {
            Ok(s) => joined_url(base@, input@) == Some(s@),
            Err(_) => joined_url(base@, input@) is None,
        },
{
    url::Url::parse(base).and_then(|b| b.join(input)).map(String::from)
}

/// Name for the serialization of the URL that `url::Url::parse_with_params`
/// makes of `input` with the query pairs appended in order (form-urlencoded),
/// or nothing when `input` is not a valid absolute URL.
pub uninterp spec fn url_with_query(input: Seq<char>, params: Seq<(Seq<char>, Seq<char>)>) -> Option<Seq<char>>;

/// Calls `url::Url::parse_with_params(input, params)` and hands back the
/// URL's serialization. The contract claims that the result is the named
/// URL for `input` and the pairs, and an error exactly when there is none.
#[verifier::external_body]
pub fn url_with_params(input: &str, params: &Vec<(String, String)>) -> (r: Result<String, url::ParseError>)
    ensures
        match r {
            Ok(s) => url_with_query(input@, params.deep_view()) == Some(s@),
            Err(_) => url_with_query(input@, params.deep_view()) is None,
        },
{
    url::Url::parse_with_params(input, params.iter()).map(String::from)
}

/// `comfy_table::Table`, a table being built; opaque to Verus.
#[verifier::external_type_specification]
#[verifier::external_body]
pub struct ExTable(comfy_table::Table);

/// Name for what a table holds: its header row, when one is set, and its
/// rows, each a row of cell texts.
pub uninterp spec fn table_contents(t: comfy_table::Table) -> (Option<Seq<Seq<char>>>, Seq<Seq<Seq<char>>>);

/// Name for whether the style of a table is the `UTF8_FULL` preset.
pub uninterp spec fn table_uses_utf8_full(t: comfy_table::Table) -> bool;

/// Name for whether a table is laid out as a fresh one: every setting other
/// than its header, rows and style (the width, the content arrangement, the
/// delimiter, the truncation indicator) is what `Table::new` gives, and its
/// columns are the default columns that comfy-table creates for the cells of
/// its header and rows, as many as the widest of them has cells.
pub uninterp spec fn table_is_plain(t: comfy_table::Table) -> bool;

/// Name for the text that comfy-table draws for a table in the `UTF8_FULL`
/// style, with the given header and rows, that is laid out as a fresh one.
pub uninterp spec fn rendered_utf8_full_table(header: Option<Seq<Seq<char>>>, rows: Seq<Seq<Seq<char>>>) -> Seq<char>;

/// Calls `comfy_table::Table::new()`. The contract claims that the new table
/// has no header and no rows, and is laid out as a fresh table.
#[verifier::external_body]
pub fn new_table() -> (t: comfy_table::Table)
    ensures
        table_contents(t) == (None::<Seq<Seq<char>>>, Seq::<Seq<Seq<char>>>::empty()),
        table_is_plain(t),
{
    comfy_table::Table::new()
}

/// Calls `Table::load_preset(comfy_table::presets::UTF8_FULL)`. The contract
/// claims that the header and rows are unchanged, that the style is now that
/// preset (it sets every one of the 19 table components), and that nothing
/// else changes: only the style map is written.
#[verifier::external_body]
pub fn load_utf8_full_preset(t: &mut comfy_table::Table)
    ensures
        table_contents(*final(t)) == table_contents(*old(t)),
        table_uses_utf8_full(*final(t)),
        table_is_plain(*final(t)) == table_is_plain(*old(t)),
{
    t.load_preset(comfy_table::presets::UTF8_FULL);
}

/// Calls `Table::set_header(cells)`. The contract claims that the header is
/// now the given cells and that the rows and the style are unchanged. A
/// header replaces an earlier one but keeps the columns made for it, so the
/// table stays laid out as a fresh one only when it had no header before.
#[verifier::external_body]
pub fn set_table_header(t: &mut comfy_table::Table, cells: Vec<String>)
    ensures
        table_contents(*final(t)) == (Some(cells.deep_view()), table_contents(*old(t)).1),
        table_uses_utf8_full(*final(t)) == table_uses_utf8_full(*old(t)),
        table_is_plain(*old(t)) && table_contents(*old(t)).0 is None ==> table_is_plain(*final(t)),
{
    t.set_header(cells);
}

/// Calls `Table::add_row(cells)`. The contract claims that the row is appended
/// after the existing rows, that the header and the style are unchanged, and
/// that a table laid out as a fresh one stays so (columns are added for the
/// cells of the row that the table has no column for yet).
#[verifier::external_body]
pub fn add_table_row(t: &mut comfy_table::Table, cells: Vec<String>)
    ensures
        table_contents(*final(t)) == (table_contents(*old(t)).0, table_contents(*old(t)).1.push(cells.deep_view())),
        table_uses_utf8_full(*final(t)) == table_uses_utf8_full(*old(t)),
        table_is_plain(*old(t)) ==> table_is_plain(*final(t)),
{
    t.add_row(cells);
}

/// Calls the `Display` of `comfy_table::Table`. The contract claims that, for
/// a table in the `UTF8_FULL` style that is laid out as a fresh one, the text
/// is the named drawing of its header and rows; nothing is claimed of other
/// tables.
#[verifier::external_body]
pub fn table_text(t: &comfy_table::Table) -> (r: String)
    ensures
        table_uses_utf8_full(*t) && table_is_plain(*t) ==> r@ == rendered_utf8_full_table(
            table_contents(*t).0,
            table_contents(*t).1,
        ),
{
    t.to_string()
}

} // verus!
