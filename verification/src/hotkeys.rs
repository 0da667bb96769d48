//! Hotkey tables written as nested configuration values.
//!
//! A table maps names to values. A name of the form `if(flag)` or
//! `if-not(flag)` puts the table under it beneath a condition, `packed()`
//! switches the table under it to the packed form, and every other name is
//! a key: text under it is what the key types, a table under it holds the
//! keys that go with it. In the packed form a name is a row of keys, one
//! character each, and the list under it holds what each of them types.

use vstd::prelude::*;

verus! {

/// A condition on a flag.
#[derive(PartialEq, Eq, Clone, Debug)]
pub enum Flag {
    Is(String),
    Not(String),
}

pub type Flags = Vec<Flag>;

/// What a hotkey does.
#[derive(PartialEq, Eq, Clone, Debug)]
pub enum KeyOutput {
    /// Types a key.
    Tap(String),
    /// Switches a flag.
    Toggle(String),
}

/// Keys that, pressed together under a condition, give an output.
#[derive(PartialEq, Eq, Clone, Debug)]
pub struct HotKey {
    /// The keys, each named once.
    pub input: Vec<String>,
    pub output: Vec<KeyOutput>,
    pub condition: Flags,
}

/// A configuration value: text, a list, or a table of named values in the
/// order in which the table lists them. Every other kind of value is
/// `Other`.
#[derive(Debug)]
pub enum ConfigValue {
    String(String),
    Array(Vec<ConfigValue>),
    Table(Vec<(String, ConfigValue)>),
    Other,
}

/// Why a table of hotkeys is refused.
#[derive(PartialEq, Eq, Structural, Clone, Copy, Debug)]
pub enum ReadError {
    /// A condition, `packed()`, or the whole configuration is not a table.
    ExpectedTable,
    /// A row of the packed form has no list under it.
    ExpectedArray,
    /// A list of the packed form holds something that is not text.
    ExpectedString,
    /// A key has neither text nor a table under it.
    UnsupportedValue,
}

/// A condition on a flag, as mathematics.
pub enum FlagView {
    Is(Seq<char>),
    Not(Seq<char>),
}

/// What a hotkey does, as mathematics.
pub enum KeyOutputView {
    Tap(Seq<char>),
    Toggle(Seq<char>),
}

/// A hotkey, as mathematics.
pub struct HotKeyView {
    pub input: Seq<Seq<char>>,
    pub output: Seq<KeyOutputView>,
    pub condition: Seq<FlagView>,
}

impl View for Flag {
    type V = FlagView;

    open spec fn view(&self) -> FlagView {
        match self {
            Flag::Is(name) => FlagView::Is(name@),
            Flag::Not(name) => FlagView::Not(name@),
        }
    }
}

impl View for KeyOutput {
    type V = KeyOutputView;

    open spec fn view(&self) -> KeyOutputView {
        match self {
            KeyOutput::Tap(key) => KeyOutputView::Tap(key@),
            KeyOutput::Toggle(flag) => KeyOutputView::Toggle(flag@),
        }
    }
}

/// The texts of `names`, in order.
pub open spec fn names_view(names: Seq<String>) -> Seq<Seq<char>> {
    Seq::new(names.len(), |i: int| names[i]@)
}

/// The outputs `outputs`, in order, as mathematics.
pub open spec fn outputs_view(outputs: Seq<KeyOutput>) -> Seq<KeyOutputView> {
    Seq::new(outputs.len(), |i: int| outputs[i]@)
}

/// The conditions `flags`, in order, as mathematics.
pub open spec fn flags_view(flags: Seq<Flag>) -> Seq<FlagView> {
    Seq::new(flags.len(), |i: int| flags[i]@)
}

impl View for HotKey {
    type V = HotKeyView;

    open spec fn view(&self) -> HotKeyView {
        HotKeyView {
            input: names_view(self.input@),
            output: outputs_view(self.output@),
            condition: flags_view(self.condition@),
        }
    }
}

/// The hotkeys `hotkeys`, in order, as mathematics.
pub open spec fn hotkeys_view(hotkeys: Seq<HotKey>) -> Seq<HotKeyView> {
    Seq::new(hotkeys.len(), |i: int| hotkeys[i]@)
}

/// The argument of a call: where `text` is `name`, an opening bracket, one
/// or more characters none of which is a line feed, and a closing bracket,
/// the characters between the brackets.
pub open spec fn call_argument(name: Seq<char>, text: Seq<char>) -> Option<Seq<char>> {
    let argument = text.subrange(name.len() as int + 1, text.len() as int - 1);
    if text.len() >= name.len() + 3 && text.subrange(0, name.len() as int) == name && text[name.len() as int]
        == '(' && text.last() == ')' && !argument.contains('\n') {
        Some(argument)
    } else {
        None
    }
}

/// The names `names` with `name` among them: added at the end unless it is
/// there already.
pub open spec fn with_name(names: Seq<Seq<char>>, name: Seq<char>) -> Seq<Seq<char>> {
    if names.contains(name) {
        names
    } else {
        names.push(name)
    }
}

/// One tap for each character of `text`, in order.
pub open spec fn taps(text: Seq<char>) -> Seq<KeyOutputView> {
    Seq::new(text.len(), |i: int| KeyOutputView::Tap(seq![text[i]]))
}

/// What text under a key means: a call of `toggle` switches the flag that
/// it names, any other text is typed character by character.
pub open spec fn output_of(text: Seq<char>) -> Seq<KeyOutputView> {
    match call_argument("toggle"@, text) {
        Some(flag) => seq![KeyOutputView::Toggle(flag)],
        None => taps(text),
    }
}

/// The hotkeys of the first `n` keys of a packed row: the key at each
/// position, together with the keys `input`, types the text at the same
/// position of `values`; a key with empty text is left out. Refused where
/// one of those values is not text.
pub open spec fn read_packed(
    row: Seq<char>,
    values: Seq<ConfigValue>,
    input: Seq<Seq<char>>,
    condition: Seq<FlagView>,
    n: nat,
) -> Result<Seq<HotKeyView>, ReadError>
    decreases n,
{
    if n == 0 {
        Ok(Seq::empty())
    } else {
        match read_packed(row, values, input, condition, (n - 1) as nat) {
            Err(e) => Err(e),
            Ok(before) => match values[n - 1] {
                ConfigValue::String(text) => if text@.len() == 0 {
                    Ok(before)
                } else {
                    Ok(
                        before.push(
                            HotKeyView {
                                input: with_name(input, seq![row[n - 1]]),
                                output: taps(text@),
                                condition,
                            },
                        ),
                    )
                },
                _ => Err(ReadError::ExpectedString),
            },
        }
    }
}

/// The smaller of two lengths.
pub open spec fn shorter(a: nat, b: nat) -> nat {
    if a <= b {
        a
    } else {
        b
    }
}

/// The hotkeys of one entry of a table, read with the keys `input` and
/// under the conditions `condition`; `packed` says whether the table is in
/// the packed form.
pub open spec fn read_entry(
    name: Seq<char>,
    value: ConfigValue,
    input: Seq<Seq<char>>,
    condition: Seq<FlagView>,
    packed: bool,
) -> Result<Seq<HotKeyView>, ReadError>
    decreases value, 0nat,
{
    if let Some(flag) = call_argument("if"@, name) {
        match value {
            ConfigValue::Table(entries) => read_entries(
                entries@,
                input,
                condition.push(FlagView::Is(flag)),
                packed,
            ),
            _ => Err(ReadError::ExpectedTable),
        }
    } else if let Some(flag) = call_argument("if-not"@, name) {
        match value {
            ConfigValue::Table(entries) => read_entries(
                entries@,
                input,
                condition.push(FlagView::Not(flag)),
                packed,
            ),
            _ => Err(ReadError::ExpectedTable),
        }
    } else if name == "packed()"@ {
        match value {
            ConfigValue::Table(entries) => read_entries(entries@, input, condition, true),
            _ => Err(ReadError::ExpectedTable),
        }
    } else if packed {
        match value {
            ConfigValue::Array(values) => read_packed(
                name,
                values@,
                input,
                condition,
                shorter(name.len(), values@.len()),
            ),
            _ => Err(ReadError::ExpectedArray),
        }
    } else {
        match value {
            ConfigValue::String(text) => if text@.len() == 0 {
                Ok(Seq::empty())
            } else {
                Ok(
                    seq![
                        HotKeyView {
                            input: with_name(input, name),
                            output: output_of(text@),
                            condition,
                        },
                    ],
                )
            },
            ConfigValue::Table(entries) => read_entries(
                entries@,
                with_name(input, name),
                condition,
                false,
            ),
            _ => Err(ReadError::UnsupportedValue),
        }
    }
}

/// The hotkeys of the entries of a table, one entry after the other; the
/// first entry that is refused decides.
pub open spec fn read_entries(
    entries: Seq<(String, ConfigValue)>,
    input: Seq<Seq<char>>,
    condition: Seq<FlagView>,
    packed: bool,
) -> Result<Seq<HotKeyView>, ReadError>
    decreases entries, 1nat,
{
    if entries.len() == 0 {
        Ok(Seq::empty())
    } else {
        match read_entries(entries.drop_last(), input, condition, packed) {
            Err(e) => Err(e),
            Ok(before) => match read_entry(
                entries.last().0@,
                entries.last().1,
                input,
                condition,
                packed,
            ) {
                Err(e) => Err(e),
                Ok(more) => Ok(before + more),
            },
        }
    }
}

/// The characters of `text`, in order.
pub fn chars_of(text: &str) -> (chars: Vec<char>)
    ensures
        chars@ == text@,
{
    let mut chars: Vec<char> = Vec::new();
    for c in it: text.chars()
        invariant
            it.seq() == text@,
            chars@ == it.seq().subrange(0, it.index() as int),
    {
        chars.push(c);
    }
    assert(chars@ =~= text@);
    chars
}

/// `String::from_iter`, by way of `Iterator::collect`: the text made of the
/// characters of `chars`, in order.
#[verifier::external_body]
pub(crate) fn string_of(chars: &Vec<char>) -> (text: String)
    ensures
        text@ == chars@,
{
    chars.iter().collect()
}

/// Whether `text` begins with `prefix`.
fn starts_with(text: &Vec<char>, prefix: &Vec<char>) -> (r: bool)
    ensures
        r == (text@.len() >= prefix@.len() && text@.subrange(0, prefix@.len() as int) == prefix@),
{
    if text.len() < prefix.len() {
        return false;
    }
    let mut i: usize = 0;
    while i < prefix.len()
        invariant
            i <= prefix.len() <= text.len(),
            text@.subrange(0, i as int) == prefix@.subrange(0, i as int),
        decreases prefix.len() - i,
    {
        if text[i] != prefix[i] {
            assert(text@.subrange(0, prefix@.len() as int)[i as int] != prefix@[i as int]);
            return false;
        }
        assert(text@.subrange(0, i + 1) =~= text@.subrange(0, i as int).push(text@[i as int]));
        assert(prefix@.subrange(0, i + 1) =~= prefix@.subrange(0, i as int).push(prefix@[i as int]));
        i += 1;
    }
    assert(prefix@.subrange(0, i as int) =~= prefix@);
    true
}

/// Computes [`call_argument`].
pub fn call_argument_of(name: &Vec<char>, text: &Vec<char>) -> (r: Option<Vec<char>>)
    ensures
        match r {
            Some(argument) => call_argument(name@, text@) == Some(argument@),
            None => call_argument(name@, text@) is None,
        },
{
    let n = name.len();
    let len = text.len();
    if len < 3 || len - 3 < n {
        return None;
    }
    if !starts_with(text, name) {
        return None;
    }
    if text[n] != '(' || text[len - 1] != ')' {
        return None;
    }
    let ghost wanted = text@.subrange(n + 1, len - 1);
    let mut argument: Vec<char> = Vec::new();
    let mut i: usize = n + 1;
    while i < len - 1
        invariant
            n + 1 <= i <= len - 1,
            n == name@.len(),
            len == text@.len(),
            wanted == text@.subrange(n + 1, len - 1),
            argument@ == text@.subrange(n + 1, i as int),
            !argument@.contains('\n'),
        decreases len - i,
    {
        let c = text[i];
        if c == '\n' {
            assert(wanted[i - n - 1] == '\n');
            assert(wanted.contains('\n'));
            return None;
        }
        let ghost before = argument@;
        argument.push(c);
        proof {
            assert(argument@ =~= text@.subrange(n + 1, i + 1));
            assert forall|j: int| 0 <= j < argument@.len() implies argument@[j] != '\n' by {
                if j < before.len() {
                    assert(before[j] == argument@[j]);
                    assert(before.contains(before[j]));
                }
            }
        }
        i += 1;
    }
    Some(argument)
}


/// Whether `a` and `b` are the same text.
fn same_text(a: &Vec<char>, b: &Vec<char>) -> (r: bool)
    ensures
        r == (a@ == b@),
{
    if a.len() != b.len() {
        return false;
    }
    let r = starts_with(a, b);
    assert(a@.subrange(0, a@.len() as int) =~= a@);
    r
}

/// A copy of `names`.
fn clone_names(names: &Vec<String>) -> (copy: Vec<String>)
    ensures
        copy@ == names@,
{
    let mut copy: Vec<String> = Vec::new();
    let mut i: usize = 0;
    while i < names.len()
        invariant
            i <= names.len(),
            copy@ == names@.subrange(0, i as int),
        decreases names.len() - i,
    {
        copy.push(names[i].clone());
        assert(copy@ =~= names@.subrange(0, i + 1));
        i += 1;
    }
    assert(copy@ =~= names@);
    copy
}

/// A copy of `flags`.
fn clone_flags(flags: &Vec<Flag>) -> (copy: Vec<Flag>)
    ensures
        copy@ == flags@,
{
    let mut copy: Vec<Flag> = Vec::new();
    let mut i: usize = 0;
    while i < flags.len()
        invariant
            i <= flags.len(),
            copy@ == flags@.subrange(0, i as int),
        decreases flags.len() - i,
    {
        let flag = match &flags[i] {
            Flag::Is(name) => Flag::Is(name.clone()),
            Flag::Not(name) => Flag::Not(name.clone()),
        };
        copy.push(flag);
        assert(copy@ =~= flags@.subrange(0, i + 1));
        i += 1;
    }
    assert(copy@ =~= flags@);
    copy
}

/// Computes [`with_name`]: a copy of `names` with `name` among them.
fn with_name_of(names: &Vec<String>, name: String) -> (r: Vec<String>)
    ensures
        names_view(r@) == with_name(names_view(names@), name@),
{
    let mut r = clone_names(names);
    let mut i: usize = 0;
    while i < names.len()
        invariant
            i <= names.len(),
            r@ == names@,
            forall|j: int| 0 <= j < i ==> names_view(names@)[j] != name@,
        decreases names.len() - i,
    {
        if names[i] == name {
            assert(names_view(names@)[i as int] == name@);
            return r;
        }
        i += 1;
    }
    r.push(name);
    assert(names_view(r@) =~= names_view(names@).push(name@));
    r
}

/// Computes [`taps`]: one tap for each character of `text`.
fn taps_of(text: &Vec<char>) -> (r: Vec<KeyOutput>)
    ensures
        outputs_view(r@) == taps(text@),
{
    let mut r: Vec<KeyOutput> = Vec::new();
    let mut i: usize = 0;
    while i < text.len()
        invariant
            i <= text.len(),
            r@.len() == i,
            forall|j: int| 0 <= j < i ==> (#[trigger] r@[j])@ == KeyOutputView::Tap(seq![text@[j]]),
        decreases text.len() - i,
    {
        let mut one: Vec<char> = Vec::new();
        one.push(text[i]);
        assert(one@ =~= seq![text@[i as int]]);
        r.push(KeyOutput::Tap(string_of(&one)));
        i += 1;
    }
    assert(outputs_view(r@) =~= taps(text@));
    r
}

/// Computes [`output_of`]: what the text `text` under a key means.
fn output_of_text(text: &Vec<char>) -> (r: Vec<KeyOutput>)
    ensures
        outputs_view(r@) == output_of(text@),
{
    let toggle = chars_of("toggle");
    match call_argument_of(&toggle, text) {
        Some(flag) => {
            let mut r: Vec<KeyOutput> = Vec::new();
            r.push(KeyOutput::Toggle(string_of(&flag)));
            assert(outputs_view(r@) =~= seq![KeyOutputView::Toggle(flag@)]);
            r
        },
        None => taps_of(text),
    }
}

/// Every hotkey of `hotkeys` names each of its keys once.
pub open spec fn distinct_inputs(hotkeys: Seq<HotKeyView>) -> bool {
    forall|i: int| 0 <= i < hotkeys.len() ==> (#[trigger] hotkeys[i]).input.no_duplicates()
}

/// Adding a name keeps names distinct.
proof fn lemma_with_name_distinct(names: Seq<Seq<char>>, name: Seq<char>)
    requires
        names.no_duplicates(),
    ensures
        with_name(names, name).no_duplicates(),
{
}

/// Once a prefix of a packed row is refused, the row is.
proof fn lemma_read_packed_refused(
    row: Seq<char>,
    values: Seq<ConfigValue>,
    input: Seq<Seq<char>>,
    condition: Seq<FlagView>,
    n: nat,
    m: nat,
)
    requires
        n <= m,
        read_packed(row, values, input, condition, n) is Err,
    ensures
        read_packed(row, values, input, condition, m) == read_packed(row, values, input, condition, n),
    decreases m - n,
{
    if n < m {
        lemma_read_packed_refused(row, values, input, condition, n, (m - 1) as nat);
    }
}

/// Once the first entries of a table are refused, the table is.
proof fn lemma_read_entries_refused(
    entries: Seq<(String, ConfigValue)>,
    input: Seq<Seq<char>>,
    condition: Seq<FlagView>,
    packed: bool,
    n: int,
)
    requires
        0 <= n <= entries.len(),
        read_entries(entries.subrange(0, n), input, condition, packed) is Err,
    ensures
        read_entries(entries, input, condition, packed) == read_entries(
            entries.subrange(0, n),
            input,
            condition,
            packed,
        ),
    decreases entries.len() - n,
{
    if n == entries.len() {
        assert(entries.subrange(0, n) =~= entries);
    } else {
        assert(entries.subrange(0, n + 1).drop_last() =~= entries.subrange(0, n));
        lemma_read_entries_refused(entries, input, condition, packed, n + 1);
    }
}

/// Reads a packed row: appends to `hotkeys` the hotkeys of the keys of
/// `row`, each with the text at its position of `values`.
fn read_packed_row(
    hotkeys: Vec<HotKey>,
    row: &Vec<char>,
    values: &Vec<ConfigValue>,
    input: &Vec<String>,
    condition: &Vec<Flag>,
) -> (r: Result<Vec<HotKey>, ReadError>)
    requires
        names_view(input@).no_duplicates(),
    ensures
        ({
            let read = read_packed(
                row@,
                values@,
                names_view(input@),
                flags_view(condition@),
                shorter(row@.len(), values@.len()),
            );
            match r {
                Ok(all) => {
                    &&& read is Ok
                    &&& hotkeys_view(all@) == hotkeys_view(hotkeys@) + read->Ok_0
                    &&& distinct_inputs(read->Ok_0)
                },
                Err(e) => read == Err::<Seq<HotKeyView>, ReadError>(e),
            }
        }),
{
    let mut all = hotkeys;
    let n: usize = if row.len() <= values.len() {
        row.len()
    } else {
        values.len()
    };
    let ghost names = names_view(input@);
    let ghost flags = flags_view(condition@);
    let mut i: usize = 0;
    assert(hotkeys_view(all@) + Seq::<HotKeyView>::empty() =~= hotkeys_view(all@));
    while i < n
        invariant
            i <= n,
            n == shorter(row@.len(), values@.len()),
            names == names_view(input@),
            flags == flags_view(condition@),
            names.no_duplicates(),
            read_packed(row@, values@, names, flags, i as nat) is Ok,
            hotkeys_view(all@) == hotkeys_view(hotkeys@) + read_packed(
                row@,
                values@,
                names,
                flags,
                i as nat,
            )->Ok_0,
            distinct_inputs(read_packed(row@, values@, names, flags, i as nat)->Ok_0),
        decreases n - i,
    {
        let ghost before = read_packed(row@, values@, names, flags, i as nat)->Ok_0;
        match &values[i] {
            ConfigValue::String(text) => {
                let text = chars_of(text.as_str());
                if text.len() > 0 {
                    let mut one: Vec<char> = Vec::new();
                    one.push(row[i]);
                    assert(one@ =~= seq![row@[i as int]]);
                    let hotkey = HotKey {
                        input: with_name_of(input, string_of(&one)),
                        output: taps_of(&text),
                        condition: clone_flags(condition),
                    };
                    let ghost shown = hotkeys_view(all@);
                    all.push(hotkey);
                    proof {
                        lemma_with_name_distinct(names, one@);
                        assert(hotkeys_view(all@) =~= shown.push(hotkey@));
                        assert(hotkeys_view(hotkeys@) + before.push(hotkey@) =~= (hotkeys_view(
                            hotkeys@,
                        ) + before).push(hotkey@));
                    }
                }
            },
            _ => {
                proof {
                    lemma_read_packed_refused(row@, values@, names, flags, (i + 1) as nat, n as nat);
                }
                return Err(ReadError::ExpectedString);
            },
        }
        i += 1;
    }
    Ok(all)
}

/// Reads the entries of a table: appends their hotkeys to `hotkeys`.
/// `input` holds the keys that every hotkey of the table starts with,
/// `condition` the conditions that it stands under, and `packed` says
/// whether the table is in the packed form.
fn read_config_(
    hotkeys: Vec<HotKey>,
    config: &Vec<(String, ConfigValue)>,
    input: &Vec<String>,
    condition: &Vec<Flag>,
    packed: bool,
) -> (r: Result<Vec<HotKey>, ReadError>)
    requires
        names_view(input@).no_duplicates(),
    ensures
        ({
            let read = read_entries(config@, names_view(input@), flags_view(condition@), packed);
            match r {
                Ok(all) => {
                    &&& read is Ok
                    &&& hotkeys_view(all@) == hotkeys_view(hotkeys@) + read->Ok_0
                    &&& distinct_inputs(read->Ok_0)
                },
                Err(e) => read == Err::<Seq<HotKeyView>, ReadError>(e),
            }
        }),
    decreases config,
{
    let mut all = hotkeys;
    let ghost names = names_view(input@);
    let ghost flags = flags_view(condition@);
    let mut i: usize = 0;
    assert(config@.subrange(0, 0) =~= Seq::empty());
    assert(hotkeys_view(all@) + Seq::<HotKeyView>::empty() =~= hotkeys_view(all@));
    while i < config.len()
        invariant
            i <= config.len(),
            names == names_view(input@),
            flags == flags_view(condition@),
            names.no_duplicates(),
            read_entries(config@.subrange(0, i as int), names, flags, packed) is Ok,
            hotkeys_view(all@) == hotkeys_view(hotkeys@) + read_entries(
                config@.subrange(0, i as int),
                names,
                flags,
                packed,
            )->Ok_0,
            distinct_inputs(read_entries(config@.subrange(0, i as int), names, flags, packed)->Ok_0),
        decreases config.len() - i,
    {
        let ghost before = read_entries(config@.subrange(0, i as int), names, flags, packed)->Ok_0;
        let ghost shown = hotkeys_view(all@);
        let ghost entry = read_entry(config@[i as int].0@, config@[i as int].1, names, flags, packed);
        proof {
            assert(config@.subrange(0, i + 1).drop_last() =~= config@.subrange(0, i as int));
            assert(config@.subrange(0, i + 1).last() == config@[i as int]);
            reveal_strlit("packed()");
        }
        let name = chars_of(config[i].0.as_str());
        let value = &config[i].1;
        let word_if = chars_of("if");
        let word_if_not = chars_of("if-not");
        let word_packed = chars_of("packed()");
        let read = if let Some(flag) = call_argument_of(&word_if, &name) {
            match value {
                ConfigValue::Table(entries) => {
                    let mut under = clone_flags(condition);
                    under.push(Flag::Is(string_of(&flag)));
                    assert(flags_view(under@) =~= flags.push(FlagView::Is(flag@)));
                    read_config_(all, entries, input, &under, packed)
                },
                _ => Err(ReadError::ExpectedTable),
            }
        } else if let Some(flag) = call_argument_of(&word_if_not, &name) {
            match value {
                ConfigValue::Table(entries) => {
                    let mut under = clone_flags(condition);
                    under.push(Flag::Not(string_of(&flag)));
                    assert(flags_view(under@) =~= flags.push(FlagView::Not(flag@)));
                    read_config_(all, entries, input, &under, packed)
                },
                _ => Err(ReadError::ExpectedTable),
            }
        } else if same_text(&name, &word_packed) {
            match value {
                ConfigValue::Table(entries) => read_config_(all, entries, input, condition, true),
                _ => Err(ReadError::ExpectedTable),
            }
        } else if packed {
            match value {
                ConfigValue::Array(values) => read_packed_row(all, &name, values, input, condition),
                _ => Err(ReadError::ExpectedArray),
            }
        } else {
            match value {
                ConfigValue::String(text) => {
                    let text = chars_of(text.as_str());
                    if text.len() > 0 {
                        let hotkey = HotKey {
                            input: with_name_of(input, string_of(&name)),
                            output: output_of_text(&text),
                            condition: clone_flags(condition),
                        };
                        all.push(hotkey);
                        proof {
                            lemma_with_name_distinct(names, name@);
                            assert(hotkeys_view(all@) =~= shown + seq![hotkey@]);
                        }
                    } else {
                        assert(shown + Seq::<HotKeyView>::empty() =~= shown);
                    }
                    Ok(all)
                },
                ConfigValue::Table(entries) => {
                    let with_key = with_name_of(input, string_of(&name));
                    proof {
                        lemma_with_name_distinct(names, name@);
                    }
                    read_config_(all, entries, &with_key, condition, false)
                },
                _ => Err(ReadError::UnsupportedValue),
            }
        };
        match read {
            Ok(more) => {
                all = more;
                proof {
                    let added = entry->Ok_0;
                    assert(hotkeys_view(all@) == shown + added);
                    assert((hotkeys_view(hotkeys@) + before) + added =~= hotkeys_view(hotkeys@) + (
                    before + added));
                }
            },
            Err(e) => {
                proof {
                    lemma_read_entries_refused(config@, names, flags, packed, i + 1);
                }
                return Err(e);
            },
        }
        i += 1;
    }
    assert(config@.subrange(0, i as int) =~= config@);
    Ok(all)
}

/// Reads a table of hotkeys. Returns the hotkeys in the order in which the
/// table lists them, each naming each of its keys once, or the reason why
/// the table is refused.
pub fn read_config(config: &Vec<(String, ConfigValue)>) -> (r: Result<Vec<HotKey>, ReadError>)
    ensures
        match r {
            Ok(hotkeys) => {
                &&& read_entries(config@, Seq::empty(), Seq::empty(), false) == Ok::<
                    Seq<HotKeyView>,
                    ReadError,
                >(hotkeys_view(hotkeys@))
                &&& distinct_inputs(hotkeys_view(hotkeys@))
            },
            Err(e) => read_entries(config@, Seq::empty(), Seq::empty(), false) == Err::<
                Seq<HotKeyView>,
                ReadError,
            >(e),
        },
{
    let input: Vec<String> = Vec::new();
    let condition: Vec<Flag> = Vec::new();
    let hotkeys: Vec<HotKey> = Vec::new();
    assert(names_view(input@) =~= Seq::empty());
    assert(flags_view(condition@) =~= Seq::empty());
    let r = read_config_(hotkeys, config, &input, &condition, false);
    proof {
        if r is Ok {
            let read = read_entries(config@, Seq::empty(), Seq::empty(), false)->Ok_0;
            assert(hotkeys_view(hotkeys@) + read =~= read);
        }
    }
    r
}

/// What a whole configuration means: the hotkeys of its table, or
/// [`ReadError::ExpectedTable`] where it is not a table.
pub open spec fn read_document(document: ConfigValue) -> Result<Seq<HotKeyView>, ReadError> {
    match document {
        ConfigValue::Table(entries) => read_entries(entries@, Seq::empty(), Seq::empty(), false),
        _ => Err(ReadError::ExpectedTable),
    }
}

/// Reads a whole configuration: see [`read_document`].
pub fn read_hotkeys(document: &ConfigValue) -> (r: Result<Vec<HotKey>, ReadError>)
    ensures
        match r {
            Ok(hotkeys) => {
                &&& read_document(*document) == Ok::<Seq<HotKeyView>, ReadError>(
                    hotkeys_view(hotkeys@),
                )
                &&& distinct_inputs(hotkeys_view(hotkeys@))
            },
            Err(e) => read_document(*document) == Err::<Seq<HotKeyView>, ReadError>(e),
        },
{
    match document {
        ConfigValue::Table(entries) => read_config(entries),
        _ => Err(ReadError::ExpectedTable),
    }
}

} // verus!
