//! Looking values up in the configuration by dotted path, and reading them as
//! numbers, flags or texts.
use crate::{chars_of, string_from_chars};
use vstd::prelude::*;
use vstd::slice::slice_subrange;
use vstd::string::StringExecFns;

verus! {

/// A value of the configuration as a lookup reads it: the text that stands for it
/// in the configuration file and, where it is a table, its entries by key.
#[derive(Debug)]
pub struct ConfigValue {
    pub text: String,
    pub entries: Option<Vec<(String, ConfigValue)>>,
}

/// What `parse` makes of a text.
#[derive(Debug)]
pub enum Value {
    String(String),
    Integer(i64),
    Boolean(bool),
}

/// What a `Value` holds, as mathematical values.
pub enum ValueView {
    String(Seq<char>),
    Integer(int),
    Boolean(bool),
}

impl View for Value {
    type V = ValueView;

    open spec fn view(&self) -> ValueView {
        match self {
            Value::String(text) => ValueView::String(text@),
            Value::Integer(number) => ValueView::Integer(*number as int),
            Value::Boolean(flag) => ValueView::Boolean(*flag),
        }
    }
}

/// The configuration that a new installation starts with.
pub open spec fn default_config() -> Seq<char> {
    "default-cmd = \"help\"\nhash-memory = 19456\nhash-iterations = 2\nhash-parallelism = 1\nhash = \"Argon2id\"\n\n[requires-key]\nsearch = true\ndelete = true\nlist = true\nconfig = false"@
}

/// The text of the configuration file of a new installation.
pub fn create_default_config() -> (text: String)
    ensures
        text@ == default_config(),
{
    String::from_str(
        "default-cmd = \"help\"\nhash-memory = 19456\nhash-iterations = 2\nhash-parallelism = 1\nhash = \"Argon2id\"\n\n[requires-key]\nsearch = true\ndelete = true\nlist = true\nconfig = false",
    )
}

/// The parts of `text` between its separators; a text without separator is one part.
pub open spec fn split_on(text: Seq<char>, separator: char) -> Seq<Seq<char>>
    decreases text.len(),
{
    if text.len() == 0 {
        seq![Seq::empty()]
    } else {
        let before = split_on(text.drop_last(), separator);
        if text.last() == separator {
            before.push(Seq::empty())
        } else {
            before.update(before.len() - 1, before.last().push(text.last()))
        }
    }
}

/// The views of a run of texts, in order.
pub open spec fn text_views(texts: Seq<String>) -> Seq<Seq<char>> {
    texts.map_values(|t: String| t@)
}

/// `split_on` always gives at least one part.
pub proof fn lemma_split_on_nonempty(text: Seq<char>, separator: char)
    ensures
        split_on(text, separator).len() >= 1,
    decreases text.len(),
{
    if text.len() > 0 {
        lemma_split_on_nonempty(text.drop_last(), separator);
    }
}

/// Splits a dotted path into its components.
pub fn split_path(path: &str) -> (components: Vec<String>)
    ensures
        text_views(components@) == split_on(path@, '.'),
        components@.len() >= 1,
{
    let chars = chars_of(path);
    let mut components: Vec<String> = Vec::new();
    let mut start: usize = 0;
    let mut at: usize = 0;
    proof {
        lemma_split_on_nonempty(path@, '.');
    }
    assert(chars@.take(0) =~= Seq::empty());
    while at < chars.len()
        invariant
            start <= at <= chars@.len(),
            chars@ == path@,
            text_views(components@).push(chars@.subrange(start as int, at as int)) == split_on(
                chars@.take(at as int),
                '.',
            ),
        decreases chars@.len() - at,
    {
        let ghost open = chars@.subrange(start as int, at as int);
        proof {
            assert(chars@.take(at + 1).drop_last() =~= chars@.take(at as int));
        }
        if chars[at] == '.' {
            let component = string_from_chars(slice_subrange(chars.as_slice(), start, at));
            components.push(component);
            start = at + 1;
            assert(chars@.subrange(start as int, at + 1) =~= Seq::empty());
        } else {
            assert(chars@.subrange(start as int, at + 1) =~= open.push(chars@[at as int]));
        }
        at += 1;
    }
    let component = string_from_chars(slice_subrange(chars.as_slice(), start, at));
    components.push(component);
    assert(chars@.take(at as int) =~= chars@);
    components
}

/// Whether `at` is the first entry of a table that stands under `key`.
pub open spec fn is_entry(entries: Seq<(String, ConfigValue)>, key: Seq<char>, at: int) -> bool {
    &&& 0 <= at < entries.len()
    &&& entries[at].0@ == key
    &&& forall|i: int| 0 <= i < at ==> (#[trigger] entries[i]).0@ != key
}

/// The value that stands under `key` in a table; `None` where `value` is no table
/// or has no such key.
pub open spec fn child(value: ConfigValue, key: Seq<char>) -> Option<ConfigValue> {
    match value.entries {
        Some(entries) => if exists|at: int| is_entry(entries@, key, at) {
            Some(entries@[choose|at: int| is_entry(entries@, key, at)].1)
        } else {
            None
        },
        None => None,
    }
}

/// The value that a path of keys leads to, going down from `value` one table at a
/// time; `None` where a key is missing or something on the way is no table.
pub open spec fn descend(value: ConfigValue, path: Seq<Seq<char>>) -> Option<ConfigValue>
    decreases path.len(),
{
    if path.len() == 0 {
        Some(value)
    } else {
        match child(value, path[0]) {
            Some(next) => descend(next, path.drop_first()),
            None => None,
        }
    }
}

/// The value under `key` in a table.
fn child_of<'a>(value: &'a ConfigValue, key: &String) -> (found: Option<&'a ConfigValue>)
    ensures
        match child(*value, key@) {
            Some(next) => found == Some(&next),
            None => found is None,
        },
{
    match &value.entries {
        Some(entries) => {
            let mut at: usize = 0;
            while at < entries.len()
                invariant
                    at <= entries@.len(),
                    value.entries is Some,
                    value.entries->0@ == entries@,
                    forall|i: int| 0 <= i < at ==> (#[trigger] entries@[i]).0@ != key@,
                decreases entries@.len() - at,
            {
                if entries[at].0 == *key {
                    proof {
                        assert(is_entry(entries@, key@, at as int));
                    }
                    return Some(&entries[at].1);
                }
                at += 1;
            }
            None
        },
        None => None,
    }
}

/// The text of the value that a dotted path leads to, whatever its kind; `None`
/// where the path leads nowhere.
pub fn get_as_str(config: &ConfigValue, path: &str) -> (found: Option<String>)
    ensures
        match descend(*config, split_on(path@, '.')) {
            Some(value) => found matches Some(text) && text@ == value.text@,
            None => found is None,
        },
{
    let split_path = split_path(path);
    let ghost keys = text_views(split_path@);
    let mut current_value: &ConfigValue = config;
    let mut at: usize = 0;
    assert(keys.skip(0) =~= keys);
    while at < split_path.len()
        invariant
            at <= split_path@.len(),
            keys == text_views(split_path@),
            keys == split_on(path@, '.'),
            descend(*config, keys) == descend(*current_value, keys.skip(at as int)),
        decreases split_path@.len() - at,
    {
        proof {
            assert(keys.skip(at as int).drop_first() =~= keys.skip(at + 1));
        }
        match child_of(current_value, &split_path[at]) {
            Some(next) => {
                current_value = next;
            },
            None => {
                return None;
            },
        }
        at += 1;
    }
    Some(current_value.text.clone())
}

/// Whether `c` is a decimal digit.
pub open spec fn is_digit(c: char) -> bool {
    '0' <= c <= '9'
}

/// The number that a run of decimal digits writes.
pub open spec fn decimal_value(digits: Seq<char>) -> nat
    decreases digits.len(),
{
    if digits.len() == 0 {
        0
    } else {
        decimal_value(digits.drop_last()) * 10 + (digits.last() as nat - '0' as nat) as nat
    }
}

/// The digits of a number text: the text itself, without a leading `+`.
pub open spec fn digits_of(text: Seq<char>) -> Seq<char> {
    if text.len() > 0 && text[0] == '+' {
        text.drop_first()
    } else {
        text
    }
}

/// The unsigned 32-bit number that `text` writes in decimal, with or without a
/// leading `+`; `None` where it holds anything else or writes a larger number.
pub open spec fn parsed_u32(text: Seq<char>) -> Option<u32> {
    let digits = digits_of(text);
    if digits.len() > 0 && (forall|i: int| 0 <= i < digits.len() ==> is_digit(#[trigger] digits[i]))
        && decimal_value(digits) <= u32::MAX {
        Some(decimal_value(digits) as u32)
    } else {
        None
    }
}

/// Reads `text` as an unsigned 32-bit number in decimal.
pub fn parse_u32(text: &str) -> (number: Option<u32>)
    ensures
        number == parsed_u32(text@),
{
    let chars = chars_of(text);
    let start: usize = if chars.len() > 0 && chars[0] == '+' {
        1
    } else {
        0
    };
    let ghost digits = digits_of(text@);
    if start == chars.len() {
        return None;
    }
    let mut value: u64 = 0;
    let mut too_large = false;
    let mut at: usize = start;
    while at < chars.len()
        invariant
            start <= at <= chars@.len(),
            digits == chars@.skip(start as int),
            digits == digits_of(text@),
            forall|i: int| 0 <= i < at - start ==> is_digit(#[trigger] digits[i]),
            too_large ==> decimal_value(digits.take(at - start)) > u32::MAX,
            !too_large ==> value == decimal_value(digits.take(at - start)) && value <= u32::MAX,
        decreases chars@.len() - at,
    {
        let c = chars[at];
        assert(digits[at - start] == c);
        if c < '0' || c > '9' {
            return None;
        }
        proof {
            assert(digits.take(at - start + 1).drop_last() =~= digits.take(at - start));
        }
        if !too_large {
            value = value * 10 + (c as u64 - '0' as u64);
            if value > 0xffff_ffff {
                too_large = true;
            }
        }
        at += 1;
    }
    assert(digits.take(at - start) =~= digits);
    if too_large {
        None
    } else {
        Some(value as u32)
    }
}

/// What a text of the configuration stands for: a number where it writes an unsigned
/// 32-bit one, a truth value where it is `true` or `false`, else the text itself.
pub open spec fn parsed(text: Seq<char>) -> ValueView {
    match parsed_u32(text) {
        Some(number) => ValueView::Integer(number as int),
        None => if text == "true"@ {
            ValueView::Boolean(true)
        } else if text == "false"@ {
            ValueView::Boolean(false)
        } else {
            ValueView::String(text)
        },
    }
}

/// Whether two texts hold the same characters.
fn same_text(text: &Vec<char>, other: &str) -> (same: bool)
    ensures
        same == (text@ == other@),
{
    let wanted = chars_of(other);
    if text.len() != wanted.len() {
        return false;
    }
    let mut at: usize = 0;
    while at < text.len()
        invariant
            at <= text@.len(),
            text@.len() == wanted@.len(),
            wanted@ == other@,
            forall|i: int| 0 <= i < at ==> text@[i] == wanted@[i],
        decreases text@.len() - at,
    {
        if text[at] != wanted[at] {
            return false;
        }
        at += 1;
    }
    assert(text@ =~= other@);
    true
}

/// Reads a text of the configuration as a value.
pub fn parse(s: &str) -> (value: Value)
    ensures
        value@ == parsed(s@),
{
    match parse_u32(s) {
        Some(number) => Value::Integer(number as i64),
        None => {
            let chars = chars_of(s);
            if same_text(&chars, "true") {
                Value::Boolean(true)
            } else if same_text(&chars, "false") {
                Value::Boolean(false)
            } else {
                Value::String(String::from_str(s))
            }
        },
    }
}

/// A type that a configuration value can be read as.
pub trait FromValue: Sized {
    /// Whether `value` can be read as this type.
    spec fn readable(value: ValueView) -> bool;

    /// Whether `out` is what `value` reads as.
    spec fn reads_as(value: ValueView, out: Self) -> bool;

    /// Tells whether `value` can be read as this type.
    fn is_readable(value: &Value) -> (readable: bool)
        ensures
            readable == Self::readable(value@),
    ;

    /// Reads `value` as this type.
    fn from_value(value: &Value) -> (out: Self)
        requires
            Self::readable(value@),
        ensures
            Self::reads_as(value@, out),
    ;
}

impl FromValue for String {
    open spec fn readable(value: ValueView) -> bool {
        value is String
    }

    open spec fn reads_as(value: ValueView, out: String) -> bool {
        value == ValueView::String(out@)
    }

    fn is_readable(value: &Value) -> (readable: bool) {
        match value {
            Value::String(_) => true,
            _ => false,
        }
    }

    fn from_value(value: &Value) -> (out: String) {
        match value {
            Value::String(text) => text.clone(),
            _ => String::new(),
        }
    }
}

impl FromValue for i32 {
    open spec fn readable(value: ValueView) -> bool {
        value matches ValueView::Integer(number) && i32::MIN <= number <= i32::MAX
    }

    open spec fn reads_as(value: ValueView, out: i32) -> bool {
        value == ValueView::Integer(out as int)
    }

    fn is_readable(value: &Value) -> (readable: bool) {
        match value {
            Value::Integer(number) => -0x8000_0000 <= *number && *number <= 0x7fff_ffff,
            _ => false,
        }
    }

    fn from_value(value: &Value) -> (out: i32) {
        match value {
            Value::Integer(number) => *number as i32,
            _ => 0,
        }
    }
}

impl FromValue for bool {
    open spec fn readable(value: ValueView) -> bool {
        value is Boolean
    }

    open spec fn reads_as(value: ValueView, out: bool) -> bool {
        value == ValueView::Boolean(out)
    }

    fn is_readable(value: &Value) -> (readable: bool) {
        match value {
            Value::Boolean(_) => true,
            _ => false,
        }
    }

    fn from_value(value: &Value) -> (out: bool) {
        match value {
            Value::Boolean(flag) => *flag,
            _ => false,
        }
    }
}

/// Whether the value that `path` leads to, if any, can be read as `T`.
pub open spec fn can_get<T: FromValue>(config: ConfigValue, path: Seq<char>) -> bool {
    descend(config, split_on(path, '.')) matches Some(value) ==> T::readable(parsed(value.text@))
}

/// Tells whether `get` can be called for `path`.
pub fn is_gettable<T: FromValue>(config: &ConfigValue, path: &str) -> (gettable: bool)
    ensures
        gettable == can_get::<T>(*config, path@),
{
    match get_as_str(config, path) {
        Some(text) => T::is_readable(&parse(text.as_str())),
        None => true,
    }
}

/// The value that a dotted path leads to, read as `T`; `None` where the path leads
/// nowhere.
pub fn get<T: FromValue>(config: &ConfigValue, path: &str) -> (found: Option<T>)
    requires
        can_get::<T>(*config, path@),
    ensures
        match descend(*config, split_on(path@, '.')) {
            Some(value) => found matches Some(out) && T::reads_as(parsed(value.text@), out),
            None => found is None,
        },
{
    match get_as_str(config, path) {
        Some(text) => Some(T::from_value(&parse(text.as_str()))),
        None => None,
    }
}

/// The value that a dotted path leads to, read as `T`, or `default` where the path
/// leads nowhere.
pub fn get_or<T: FromValue>(config: &ConfigValue, path: &str, default: T) -> (found: T)
    requires
        can_get::<T>(*config, path@),
    ensures
        match descend(*config, split_on(path@, '.')) {
            Some(value) => T::reads_as(parsed(value.text@), found),
            None => found == default,
        },
{
    match get(config, path) {
        Some(value) => value,
        None => default,
    }
}

} // verus!
