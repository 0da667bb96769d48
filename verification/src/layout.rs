//! Keyboard layouts written as rows of keys.
//!
//! A row names its keys by one character each and lists, position by
//! position, what each key types. Rows at the top of a layout are for keys
//! pressed alone; rows in a table are for keys pressed together with the
//! key that the table is named after.

use crate::hotkeys::{chars_of, ConfigValue};
use vstd::prelude::*;

verus! {

/// Why a layout is refused.
#[derive(PartialEq, Eq, Structural, Clone, Copy, Debug)]
pub enum LayoutError {
    /// The layout is not a table.
    ExpectedTable,
    /// A table of the layout has an empty name, so no key to go with.
    EmptyName,
}

/// The keys pressed alone and the keys pressed together of a layout.
#[derive(PartialEq, Eq, Clone, Debug)]
pub struct Layout {
    /// A key and what it types.
    pub singles: Vec<(char, String)>,
    /// A key, the key pressed with it, and what the two type.
    pub doubles: Vec<(char, char, String)>,
}

/// A key and what it types, as mathematics.
pub open spec fn singles_view(singles: Seq<(char, String)>) -> Seq<(char, Seq<char>)> {
    Seq::new(singles.len(), |i: int| (singles[i].0, singles[i].1@))
}

/// A key, the key pressed with it, and what the two type, as mathematics.
pub open spec fn doubles_view(doubles: Seq<(char, char, String)>) -> Seq<(char, char, Seq<char>)> {
    Seq::new(doubles.len(), |i: int| (doubles[i].0, doubles[i].1, doubles[i].2@))
}

/// The first `n` keys of the row `keys`, each with the text at its position
/// of `values`; a key without text at its position is left out.
pub open spec fn zipped(keys: Seq<char>, values: Seq<ConfigValue>, n: nat) -> Seq<(char, Seq<char>)>
    decreases n,
{
    if n == 0 {
        Seq::empty()
    } else {
        let before = zipped(keys, values, (n - 1) as nat);
        match values[n - 1] {
            ConfigValue::String(text) => before.push((keys[n - 1], text@)),
            _ => before,
        }
    }
}

/// The keys of the row `keys`, each with the text at its position of
/// `values`, as far as both reach.
pub open spec fn zip_row(keys: Seq<char>, values: Seq<ConfigValue>) -> Seq<(char, Seq<char>)> {
    zipped(keys, values, if keys.len() <= values.len() { keys.len() } else { values.len() })
}

/// Every key of `row` with `head` as the key pressed with it.
pub open spec fn with_head(row: Seq<(char, Seq<char>)>, head: char) -> Seq<(char, char, Seq<char>)> {
    Seq::new(row.len(), |i: int| (row[i].0, head, row[i].1))
}

/// The keys pressed together with `head`: the rows of `entries`, a later
/// row before an earlier one; an entry that is not a row is left out.
pub open spec fn combined(head: char, entries: Seq<(String, ConfigValue)>) -> Seq<
    (char, char, Seq<char>),
>
    decreases entries.len(),
{
    if entries.len() == 0 {
        Seq::empty()
    } else {
        let before = combined(head, entries.drop_last());
        match entries.last().1 {
            ConfigValue::Array(values) => with_head(zip_row(entries.last().0@, values@), head) + before,
            _ => before,
        }
    }
}

/// A layout, as mathematics.
pub struct LayoutView {
    pub singles: Seq<(char, Seq<char>)>,
    pub doubles: Seq<(char, char, Seq<char>)>,
}

/// What the entries of a layout come to: every row adds its keys to the
/// keys pressed alone, and every table sets the keys pressed together to
/// those of its rows, with the first character of its name as the key
/// that goes with them. Refused at the first table with an empty name.
pub open spec fn layout_of(entries: Seq<(String, ConfigValue)>) -> Result<LayoutView, LayoutError>
    decreases entries.len(),
{
    if entries.len() == 0 {
        Ok(LayoutView { singles: Seq::empty(), doubles: Seq::empty() })
    } else {
        match layout_of(entries.drop_last()) {
            Err(e) => Err(e),
            Ok(before) => match entries.last().1 {
                ConfigValue::Array(values) => Ok(
                    LayoutView {
                        singles: before.singles + zip_row(entries.last().0@, values@),
                        doubles: before.doubles,
                    },
                ),
                ConfigValue::Table(rows) => if entries.last().0@.len() == 0 {
                    Err(LayoutError::EmptyName)
                } else {
                    Ok(
                        LayoutView {
                            singles: before.singles,
                            doubles: combined(entries.last().0@[0], rows@),
                        },
                    )
                },
                _ => Ok(before),
            },
        }
    }
}

/// Computes [`zip_row`].
pub fn zip_keys(keys: &str, out_strings: &Vec<ConfigValue>) -> (zipped_keys: Vec<(char, String)>)
    ensures
        singles_view(zipped_keys@) == zip_row(keys@, out_strings@),
{
    let keys = chars_of(keys);
    let n: usize = if keys.len() <= out_strings.len() {
        keys.len()
    } else {
        out_strings.len()
    };
    let mut acc: Vec<(char, String)> = Vec::new();
    let mut i: usize = 0;
    assert(singles_view(acc@) =~= zipped(keys@, out_strings@, 0));
    while i < n
        invariant
            i <= n,
            n <= keys.len(),
            n <= out_strings.len(),
            singles_view(acc@) == zipped(keys@, out_strings@, i as nat),
        decreases n - i,
    {
        if let ConfigValue::String(text) = &out_strings[i] {
            let ghost shown = singles_view(acc@);
            acc.push((keys[i], text.clone()));
            assert(singles_view(acc@) =~= shown.push((keys@[i as int], text@)));
        }
        i += 1;
    }
    acc
}

/// Computes [`combined`].
pub fn read_combinated_hotkeys(head_key: char, key_map: &Vec<(String, ConfigValue)>) -> (hotkeys:
    Vec<(char, char, String)>)
    ensures
        doubles_view(hotkeys@) == combined(head_key, key_map@),
{
    let mut acc: Vec<(char, char, String)> = Vec::new();
    let mut i: usize = 0;
    assert(key_map@.subrange(0, 0) =~= Seq::empty());
    assert(doubles_view(acc@) =~= Seq::empty());
    while i < key_map.len()
        invariant
            i <= key_map.len(),
            doubles_view(acc@) == combined(head_key, key_map@.subrange(0, i as int)),
        decreases key_map.len() - i,
    {
        proof {
            assert(key_map@.subrange(0, i + 1).drop_last() =~= key_map@.subrange(0, i as int));
            assert(key_map@.subrange(0, i + 1).last() == key_map@[i as int]);
        }
        if let ConfigValue::Array(out_strings) = &key_map[i].1 {
            let row = zip_keys(key_map[i].0.as_str(), out_strings);
            let mut combination: Vec<(char, char, String)> = Vec::new();
            let mut j: usize = 0;
            while j < row.len()
                invariant
                    j <= row.len(),
                    doubles_view(combination@) == with_head(singles_view(row@), head_key).subrange(
                        0,
                        j as int,
                    ),
                decreases row.len() - j,
            {
                let ghost shown = doubles_view(combination@);
                combination.push((row[j].0, head_key, row[j].1.clone()));
                assert(doubles_view(combination@) =~= shown.push((row@[j as int].0, head_key, row@[j as int].1@)));
                assert(doubles_view(combination@) =~= with_head(singles_view(row@), head_key).subrange(
                    0,
                    j + 1,
                ));
                j += 1;
            }
            let ghost first = doubles_view(combination@);
            let ghost rest = doubles_view(acc@);
            assert(first =~= with_head(singles_view(row@), head_key));
            combination.append(&mut acc);
            assert(doubles_view(combination@) =~= first + rest);
            acc = combination;
        }
        i += 1;
    }
    assert(key_map@.subrange(0, i as int) =~= key_map@);
    acc
}

/// Reads a layout: see [`layout_of`]. A layout that is not a table is
/// refused.
pub fn load_layout(document: &ConfigValue) -> (r: Result<Layout, LayoutError>)
    ensures
        match r {
            Ok(layout) => document matches ConfigValue::Table(entries) && layout_of(entries@) == Ok::<
                LayoutView,
                LayoutError,
            >(
                LayoutView {
                    singles: singles_view(layout.singles@),
                    doubles: doubles_view(layout.doubles@),
                },
            ),
            Err(e) => match document {
                ConfigValue::Table(entries) => layout_of(entries@) == Err::<LayoutView, LayoutError>(e),
                _ => e == LayoutError::ExpectedTable,
            },
        },
{
    let entries = match document {
        ConfigValue::Table(entries) => entries,
        _ => {
            return Err(LayoutError::ExpectedTable);
        },
    };
    let mut singles: Vec<(char, String)> = Vec::new();
    let mut doubles: Vec<(char, char, String)> = Vec::new();
    let mut i: usize = 0;
    assert(entries@.subrange(0, 0) =~= Seq::empty());
    assert(singles_view(singles@) =~= Seq::empty());
    assert(doubles_view(doubles@) =~= Seq::empty());
    while i < entries.len()
        invariant
            i <= entries.len(),
            *document == ConfigValue::Table(*entries),
            layout_of(entries@.subrange(0, i as int)) == Ok::<LayoutView, LayoutError>(
                LayoutView { singles: singles_view(singles@), doubles: doubles_view(doubles@) },
            ),
        decreases entries.len() - i,
    {
        proof {
            assert(entries@.subrange(0, i + 1).drop_last() =~= entries@.subrange(0, i as int));
            assert(entries@.subrange(0, i + 1).last() == entries@[i as int]);
        }
        match &entries[i].1 {
            ConfigValue::Array(values) => {
                let mut row = zip_keys(entries[i].0.as_str(), values);
                let ghost before = singles_view(singles@);
                let ghost added = singles_view(row@);
                singles.append(&mut row);
                assert(singles_view(singles@) =~= before + added);
            },
            ConfigValue::Table(rows) => {
                let name = chars_of(entries[i].0.as_str());
                if name.len() == 0 {
                    proof {
                        lemma_layout_refused(entries@, i + 1);
                    }
                    return Err(LayoutError::EmptyName);
                }
                doubles = read_combinated_hotkeys(name[0], rows);
            },
            _ => {},
        }
        i += 1;
    }
    assert(entries@.subrange(0, i as int) =~= entries@);
    Ok(Layout { singles, doubles })
}

/// Once the first entries of a layout are refused, the layout is.
proof fn lemma_layout_refused(entries: Seq<(String, ConfigValue)>, n: int)
    requires
        0 <= n <= entries.len(),
        layout_of(entries.subrange(0, n)) is Err,
    ensures
        layout_of(entries) == layout_of(entries.subrange(0, n)),
    decreases entries.len() - n,
{
    if n == entries.len() {
        assert(entries.subrange(0, n) =~= entries);
    } else {
        assert(entries.subrange(0, n + 1).drop_last() =~= entries.subrange(0, n));
        lemma_layout_refused(entries, n + 1);
    }
}

} // verus!
