use vstd::prelude::*;

use crate::host::Host;
use crate::number::{decimal, push_decimal, AsonNumber};
use crate::runtime::AsonFunction;
use crate::text::string_of;

verus! {

/// A resolved value. Objects keep their members in insertion order, each key
/// once.
#[derive(Debug)]
pub enum AsonValue {
    Function(AsonFunction),
    Object(Vec<(String, AsonValue)>),
    Array(Vec<AsonValue>),
    String(String),
    Number(AsonNumber),
    Boolean(bool),
    Null,
}

/// A value as a mathematical object. Floats are abstracted to their kind:
/// their binary64 payload is computed by the host and not modelled.
pub enum ValueModel {
    Function(AsonFunction),
    Object(Seq<(Seq<char>, ValueModel)>),
    Array(Seq<ValueModel>),
    Str(Seq<char>),
    Integer(int),
    Float,
    Boolean(bool),
    Null,
}

pub open spec fn number_model(n: AsonNumber) -> ValueModel {
    match n {
        AsonNumber::Integer(i) => ValueModel::Integer(i as int),
        AsonNumber::Float(_) => ValueModel::Float,
    }
}

pub open spec fn model(v: AsonValue) -> ValueModel
    decreases v, 0int,
{
    match v {
        AsonValue::Function(f) => ValueModel::Function(f),
        AsonValue::Object(entries) => ValueModel::Object(entries_model(entries@)),
        AsonValue::Array(items) => ValueModel::Array(items_model(items@)),
        AsonValue::String(s) => ValueModel::Str(s@),
        AsonValue::Number(n) => number_model(n),
        AsonValue::Boolean(b) => ValueModel::Boolean(b),
        AsonValue::Null => ValueModel::Null,
    }
}

pub open spec fn items_model(s: Seq<AsonValue>) -> Seq<ValueModel>
    decreases s, 1int,
{
    if s.len() == 0 {
        Seq::empty()
    } else {
        items_model(s.drop_last()).push(model(s.last()))
    }
}

pub open spec fn entries_model(s: Seq<(String, AsonValue)>) -> Seq<(Seq<char>, ValueModel)>
    decreases s, 1int,
{
    if s.len() == 0 {
        Seq::empty()
    } else {
        entries_model(s.drop_last()).push((s.last().0@, model(s.last().1)))
    }
}

pub proof fn lemma_items_model(s: Seq<AsonValue>)
    ensures
        items_model(s).len() == s.len(),
        forall|i: int| 0 <= i < s.len() ==> #[trigger] items_model(s)[i] == model(s[i]),
    decreases s.len(),
{
    if s.len() > 0 {
        lemma_items_model(s.drop_last());
    }
}

pub proof fn lemma_entries_model(s: Seq<(String, AsonValue)>)
    ensures
        entries_model(s).len() == s.len(),
        forall|i: int|
            0 <= i < s.len() ==> #[trigger] entries_model(s)[i] == (s[i].0@, model(s[i].1)),
    decreases s.len(),
{
    if s.len() > 0 {
        lemma_entries_model(s.drop_last());
    }
}

/// Sequences whose models agree element by element have the same model.
pub proof fn lemma_items_model_ext(a: Seq<AsonValue>, b: Seq<AsonValue>)
    requires
        a.len() == b.len(),
        forall|i: int| 0 <= i < a.len() ==> model(#[trigger] a[i]) == model(b[i]),
    ensures
        items_model(a) == items_model(b),
{
    lemma_items_model(a);
    lemma_items_model(b);
    assert(items_model(a) =~= items_model(b));
}

pub proof fn lemma_entries_model_ext(a: Seq<(String, AsonValue)>, b: Seq<(String, AsonValue)>)
    requires
        a.len() == b.len(),
        forall|i: int|
            0 <= i < a.len() ==> (#[trigger] a[i]).0@ == b[i].0@ && model(a[i].1) == model(b[i].1),
    ensures
        entries_model(a) == entries_model(b),
{
    lemma_entries_model(a);
    lemma_entries_model(b);
    assert(entries_model(a) =~= entries_model(b));
}

/// The binary64 payloads of the value's floats, in order. With the model,
/// which keeps everything else, they fix the value.
pub open spec fn float_bits(v: AsonValue) -> Seq<u64>
    decreases v, 0int,
{
    match v {
        AsonValue::Object(entries) => entries_bits(entries@),
        AsonValue::Array(items) => items_bits(items@),
        AsonValue::Number(AsonNumber::Float(b)) => seq![b],
        _ => Seq::empty(),
    }
}

pub open spec fn items_bits(s: Seq<AsonValue>) -> Seq<u64>
    decreases s, 1int,
{
    if s.len() == 0 {
        Seq::empty()
    } else {
        items_bits(s.drop_last()) + float_bits(s.last())
    }
}

pub open spec fn entries_bits(s: Seq<(String, AsonValue)>) -> Seq<u64>
    decreases s, 1int,
{
    if s.len() == 0 {
        Seq::empty()
    } else {
        entries_bits(s.drop_last()) + float_bits(s.last().1)
    }
}

/// `a` and `b` are the same value: same model and same float payloads.
pub open spec fn same_value(a: AsonValue, b: AsonValue) -> bool {
    model(a) == model(b) && float_bits(a) == float_bits(b)
}

proof fn lemma_items_bits_ext(a: Seq<AsonValue>, b: Seq<AsonValue>)
    requires
        a.len() == b.len(),
        forall|i: int| 0 <= i < a.len() ==> float_bits(#[trigger] a[i]) == float_bits(b[i]),
    ensures
        items_bits(a) == items_bits(b),
    decreases a.len(),
{
    if a.len() > 0 {
        lemma_items_bits_ext(a.drop_last(), b.drop_last());
    }
}

proof fn lemma_entries_bits_ext(a: Seq<(String, AsonValue)>, b: Seq<(String, AsonValue)>)
    requires
        a.len() == b.len(),
        forall|i: int| 0 <= i < a.len() ==> float_bits((#[trigger] a[i]).1) == float_bits(b[i].1),
    ensures
        entries_bits(a) == entries_bits(b),
    decreases a.len(),
{
    if a.len() > 0 {
        lemma_entries_bits_ext(a.drop_last(), b.drop_last());
    }
}

/// The index of the first member with key `k` at or after `i`, or -1.
pub open spec fn key_index_from<V>(s: Seq<(Seq<char>, V)>, k: Seq<char>, i: int) -> int
    decreases s.len() - i,
{
    if i < 0 || i >= s.len() {
        -1
    } else if s[i].0 == k {
        i
    } else {
        key_index_from(s, k, i + 1)
    }
}

/// The index of the member with key `k`, or -1.
pub open spec fn key_index<V>(s: Seq<(Seq<char>, V)>, k: Seq<char>) -> int {
    key_index_from(s, k, 0)
}

/// The value bound to `k`.
pub open spec fn assoc_get<V>(s: Seq<(Seq<char>, V)>, k: Seq<char>) -> Option<V> {
    if key_index(s, k) >= 0 {
        Some(s[key_index(s, k)].1)
    } else {
        None
    }
}

/// Binds `k` to `v`: a member with key `k` is replaced where it stands,
/// otherwise the member is appended.
pub open spec fn assoc_insert<V>(s: Seq<(Seq<char>, V)>, k: Seq<char>, v: V) -> Seq<(Seq<char>, V)> {
    if key_index(s, k) >= 0 {
        s.update(key_index(s, k), (k, v))
    } else {
        s.push((k, v))
    }
}

pub open spec fn keys_unique<V>(s: Seq<(Seq<char>, V)>) -> bool {
    forall|i: int, j: int| 0 <= i < j < s.len() ==> s[i].0 != s[j].0
}

pub proof fn lemma_key_index_from<V>(s: Seq<(Seq<char>, V)>, k: Seq<char>, i: int)
    requires
        0 <= i <= s.len(),
    ensures
        key_index_from(s, k, i) == -1 || (i <= key_index_from(s, k, i) < s.len() && s[key_index_from(
            s,
            k,
            i,
        )].0 == k),
        key_index_from(s, k, i) == -1 ==> forall|j: int| i <= j < s.len() ==> s[j].0 != k,
        forall|j: int| i <= j < key_index_from(s, k, i) ==> s[j].0 != k,
    decreases s.len() - i,
{
    if i < s.len() && s[i].0 != k {
        lemma_key_index_from(s, k, i + 1);
    }
}

pub proof fn lemma_assoc_insert_unique<V>(s: Seq<(Seq<char>, V)>, k: Seq<char>, v: V)
    requires
        keys_unique(s),
    ensures
        keys_unique(assoc_insert(s, k, v)),
        assoc_get(assoc_insert(s, k, v), k) == Some(v),
{
    lemma_key_index_from(s, k, 0);
    let t = assoc_insert(s, k, v);
    lemma_key_index_from(t, k, 0);
    if key_index(s, k) < 0 {
        assert(t[s.len() as int].0 == k);
    } else {
        assert(t[key_index(s, k)].0 == k);
    }
}

proof fn lemma_key_index_at<V>(s: Seq<(Seq<char>, V)>, k: Seq<char>, m: int, i: int)
    requires
        0 <= m <= i < s.len(),
        s[i].0 == k,
        forall|j: int| m <= j < i ==> s[j].0 != k,
    ensures
        key_index_from(s, k, m) == i,
    decreases i - m,
{
    if m < i {
        lemma_key_index_at(s, k, m + 1, i);
    }
}

/// The value stored under `k` among the members, as it stands.
pub open spec fn member_value(entries: Seq<(String, AsonValue)>, k: Seq<char>) -> Option<AsonValue> {
    let i = key_index(entries_model(entries), k);
    if i >= 0 {
        Some(entries[i].1)
    } else {
        None
    }
}

/// Finds the member with key `k`.
pub fn find_key(entries: &Vec<(String, AsonValue)>, k: &str) -> (r: Option<usize>)
    ensures
        match r {
            Some(i) => i < entries@.len() && i as int == key_index(entries_model(entries@), k@),
            None => key_index(entries_model(entries@), k@) == -1,
        },
{
    let ghost s = entries_model(entries@);
    proof {
        lemma_entries_model(entries@);
    }
    let mut i: usize = 0;
    while i < entries.len()
        invariant
            s == entries_model(entries@),
            s.len() == entries@.len(),
            i <= entries@.len(),
            key_index(s, k@) == key_index_from(s, k@, i as int),
            forall|j: int| 0 <= j < s.len() ==> #[trigger] s[j] == (entries@[j].0@, model(entries@[j].1)),
        decreases entries@.len() - i,
    {
        let name = entries[i].0.as_str();
        if str_eq(name, k) {
            return Some(i);
        }
        i = i + 1;
    }
    None
}

/// Whether two strings hold the same characters.
pub(crate) fn str_eq(a: &str, b: &str) -> (r: bool)
    ensures
        r == (a@ == b@),
{
    let x = crate::text::chars_of(a);
    let y = crate::text::chars_of(b);
    if x.len() != y.len() {
        return false;
    }
    let mut i: usize = 0;
    while i < x.len()
        invariant
            x@ == a@,
            y@ == b@,
            x@.len() == y@.len(),
            i <= x@.len(),
            forall|j: int| 0 <= j < i ==> x@[j] == y@[j],
        decreases x@.len() - i,
    {
        if x[i] != y[i] {
            return false;
        }
        i = i + 1;
    }
    proof {
        assert(x@ =~= y@);
    }
    true
}

/// Binds `k` to `v` among the members: last write wins.
pub fn insert_member(entries: &mut Vec<(String, AsonValue)>, k: String, v: AsonValue)
    ensures
        entries_model(final(entries)@) == assoc_insert(entries_model(old(entries)@), k@, model(v)),
        member_value(final(entries)@, k@) == Some(v),
{
    let ghost gv = v;
    let ghost s = entries_model(entries@);
    let ghost kv = k@;
    let ghost mv = model(v);
    proof {
        lemma_entries_model(entries@);
    }
    match find_key(entries, k.as_str()) {
        Some(i) => {
            entries.set(i, (k, v));
            proof {
                lemma_entries_model(entries@);
                assert(entries_model(entries@) =~= s.update(i as int, (kv, mv)));
                lemma_key_index_from(s, kv, 0);
                lemma_key_index_at(entries_model(entries@), kv, 0, i as int);
            }
        },
        None => {
            entries.push((k, v));
            proof {
                assert(entries@.drop_last() =~= old(entries)@);
                lemma_key_index_from(s, kv, 0);
                lemma_entries_model(entries@);
                lemma_key_index_at(entries_model(entries@), kv, 0, s.len() as int);
            }
        },
    }
}

impl AsonValue {
    /// A copy of the value.
    pub fn deep_clone(&self) -> (r: AsonValue)
        ensures
            same_value(r, *self),
        decreases self,
    {
        match self {
            AsonValue::Function(f) => AsonValue::Function(*f),
            AsonValue::Object(entries) => {
                let mut out: Vec<(String, AsonValue)> = Vec::new();
                let mut i: usize = 0;
                while i < entries.len()
                    invariant
                        *self == AsonValue::Object(*entries),
                        i <= entries@.len(),
                        out@.len() == i,
                        forall|j: int|
                            0 <= j < i ==> (#[trigger] out@[j]).0@ == entries@[j].0@ && same_value(
                                out@[j].1,
                                entries@[j].1,
                            ),
                    decreases entries@.len() - i,
                {
                    proof {
                        assert(decreases_to!(*self => self->Object_0));
                        assert(decreases_to!(self->Object_0 => self->Object_0@));
                        assert(decreases_to!(entries@ => entries@[i as int]));
                        assert(decreases_to!(entries@[i as int] => entries@[i as int].1));
                    }
                    let e = (entries[i].0.clone(), entries[i].1.deep_clone());
                    out.push(e);
                    i = i + 1;
                }
                proof {
                    lemma_entries_model_ext(out@, entries@);
                    lemma_entries_bits_ext(out@, entries@);
                }
                AsonValue::Object(out)
            },
            AsonValue::Array(items) => {
                let mut out: Vec<AsonValue> = Vec::new();
                let mut i: usize = 0;
                while i < items.len()
                    invariant
                        *self == AsonValue::Array(*items),
                        i <= items@.len(),
                        out@.len() == i,
                        forall|j: int| 0 <= j < i ==> same_value(#[trigger] out@[j], items@[j]),
                    decreases items@.len() - i,
                {
                    proof {
                        assert(decreases_to!(*self => self->Array_0));
                        assert(decreases_to!(self->Array_0 => self->Array_0@));
                        assert(decreases_to!(items@ => items@[i as int]));
                    }
                    let e = items[i].deep_clone();
                    out.push(e);
                    i = i + 1;
                }
                proof {
                    lemma_items_model_ext(out@, items@);
                    lemma_items_bits_ext(out@, items@);
                }
                AsonValue::Array(out)
            },
            AsonValue::String(s) => AsonValue::String(s.clone()),
            AsonValue::Number(n) => AsonValue::Number(*n),
            AsonValue::Boolean(b) => AsonValue::Boolean(*b),
            AsonValue::Null => AsonValue::Null,
        }
    }

    pub fn is_object(&self) -> (r: bool)
        ensures
            r == self is Object,
    {
        matches!(self, AsonValue::Object(_))
    }

    pub fn is_array(&self) -> (r: bool)
        ensures
            r == self is Array,
    {
        matches!(self, AsonValue::Array(_))
    }

    pub fn is_string(&self) -> (r: bool)
        ensures
            r == self is String,
    {
        matches!(self, AsonValue::String(_))
    }

    pub fn is_number(&self) -> (r: bool)
        ensures
            r == self is Number,
    {
        matches!(self, AsonValue::Number(_))
    }

    pub fn is_integer(&self) -> (r: bool)
        ensures
            r == (self is Number && self->Number_0 is Integer),
    {
        matches!(self, AsonValue::Number(AsonNumber::Integer(_)))
    }

    pub fn is_float(&self) -> (r: bool)
        ensures
            r == (self is Number && self->Number_0 is Float),
    {
        matches!(self, AsonValue::Number(AsonNumber::Float(_)))
    }

    pub fn is_boolean(&self) -> (r: bool)
        ensures
            r == self is Boolean,
    {
        matches!(self, AsonValue::Boolean(_))
    }

    pub fn is_null(&self) -> (r: bool)
        ensures
            r == self is Null,
    {
        matches!(self, AsonValue::Null)
    }

    pub fn as_object(&self) -> (r: Option<&Vec<(String, AsonValue)>>)
        ensures
            match self {
                AsonValue::Object(m) => r == Some(m),
                _ => r is None,
            },
    {
        match self {
            AsonValue::Object(m) => Some(m),
            _ => None,
        }
    }

    pub fn as_number(&self) -> (r: Option<AsonNumber>)
        ensures
            match self {
                AsonValue::Number(n) => r == Some(*n),
                _ => r is None,
            },
    {
        match self {
            AsonValue::Number(n) => Some(*n),
            _ => None,
        }
    }

    /// The member of an object under `key`; `None` where the value is not an
    /// object or has no such member.
    pub fn get(&self, key: &str) -> (r: Option<&AsonValue>)
        ensures
            match self {
                AsonValue::Object(m) => match assoc_get(entries_model(m@), key@) {
                    Some(v) => r is Some && model(*r->Some_0) == v,
                    None => r is None,
                },
                _ => r is None,
            },
    {
        match self {
            AsonValue::Object(m) => {
                proof {
                    lemma_entries_model(m@);
                }
                match find_key(m, key) {
                    Some(i) => Some(&m[i].1),
                    None => None,
                }
            },
            _ => None,
        }
    }

    /// The element of an array at `index`; `None` where the value is not an
    /// array or the index is out of range.
    pub fn at(&self, index: usize) -> (r: Option<&AsonValue>)
        ensures
            match self {
                AsonValue::Array(a) => if index < a@.len() {
                    r == Some(&a@[index as int])
                } else {
                    r is None
                },
                _ => r is None,
            },
    {
        match self {
            AsonValue::Array(a) => {
                if index < a.len() {
                    Some(&a[index])
                } else {
                    None
                }
            },
            _ => None,
        }
    }
}

/// The number of floats in the value.
pub open spec fn float_count(m: ValueModel) -> nat
    decreases m, 0int,
{
    match m {
        ValueModel::Object(es) => members_float_count(es),
        ValueModel::Array(xs) => items_float_count(xs),
        ValueModel::Float => 1,
        _ => 0,
    }
}

pub open spec fn items_float_count(xs: Seq<ValueModel>) -> nat
    decreases xs, 1int,
{
    if xs.len() == 0 {
        0
    } else {
        items_float_count(xs.drop_last()) + float_count(xs.last())
    }
}

pub open spec fn members_float_count(es: Seq<(Seq<char>, ValueModel)>) -> nat
    decreases es, 1int,
{
    if es.len() == 0 {
        0
    } else {
        members_float_count(es.drop_last()) + float_count(es.last().1)
    }
}

pub proof fn lemma_items_float_count_prefix(xs: Seq<ValueModel>, j: int)
    requires
        0 <= j <= xs.len(),
    ensures
        items_float_count(xs.subrange(0, j)) <= items_float_count(xs),
    decreases xs.len(),
{
    if j < xs.len() {
        lemma_items_float_count_prefix(xs.drop_last(), j);
        assert(xs.drop_last().subrange(0, j) =~= xs.subrange(0, j));
    } else {
        assert(xs.subrange(0, j) =~= xs);
    }
}

proof fn lemma_members_float_count_prefix(es: Seq<(Seq<char>, ValueModel)>, j: int)
    requires
        0 <= j <= es.len(),
    ensures
        members_float_count(es.subrange(0, j)) <= members_float_count(es),
    decreases es.len(),
{
    if j < es.len() {
        lemma_members_float_count_prefix(es.drop_last(), j);
        assert(es.drop_last().subrange(0, j) =~= es.subrange(0, j));
    } else {
        assert(es.subrange(0, j) =~= es);
    }
}

/// The texts of a sequence of strings.
pub open spec fn texts_view(ts: Seq<String>) -> Seq<Seq<char>> {
    ts.map_values(|t: String| t@)
}

pub open spec fn text_true() -> Seq<char> {
    seq!['t', 'r', 'u', 'e']
}

pub open spec fn text_false() -> Seq<char> {
    seq!['f', 'a', 'l', 's', 'e']
}

pub open spec fn text_null() -> Seq<char> {
    seq!['n', 'u', 'l', 'l']
}

pub open spec fn text_function() -> Seq<char> {
    seq!['F', 'u', 'n', 'c', 't', 'i', 'o', 'n']
}

/// The text of a value: its compact JSON form, or with `display` its
/// human-readable form, which differs only in showing a function as
/// `Function` (JSON has no function, so it shows nothing). Floats are shown
/// by the texts `ts`, the `k`-th for the first float of the value, the next
/// for the next, in order; a float past the end of `ts` shows nothing.
pub open spec fn render(m: ValueModel, display: bool, ts: Seq<Seq<char>>, k: int) -> Seq<char>
    decreases m, 0int,
{
    match m {
        ValueModel::Function(_) => if display {
            text_function()
        } else {
            Seq::empty()
        },
        ValueModel::Object(es) => seq!['{'] + render_members(es, display, ts, k) + seq!['}'],
        ValueModel::Array(xs) => seq!['['] + render_items(xs, display, ts, k) + seq![']'],
        ValueModel::Str(s) => seq!['"'] + escape(s) + seq!['"'],
        ValueModel::Integer(i) => decimal(i),
        ValueModel::Float => if 0 <= k < ts.len() {
            ts[k]
        } else {
            Seq::empty()
        },
        ValueModel::Boolean(b) => if b {
            text_true()
        } else {
            text_false()
        },
        ValueModel::Null => text_null(),
    }
}

/// The elements' texts, separated by commas.
pub open spec fn render_items(xs: Seq<ValueModel>, display: bool, ts: Seq<Seq<char>>, k: int) -> Seq<char>
    decreases xs, 1int,
{
    if xs.len() == 0 {
        Seq::empty()
    } else if xs.len() == 1 {
        render(xs[0], display, ts, k)
    } else {
        render_items(xs.drop_last(), display, ts, k) + seq![','] + render(
            xs.last(),
            display,
            ts,
            k + items_float_count(xs.drop_last()),
        )
    }
}

/// One member: `"key":value`.
pub open spec fn render_member(e: (Seq<char>, ValueModel), display: bool, ts: Seq<Seq<char>>, k: int) -> Seq<char>
    decreases e, 0int,
{
    seq!['"'] + escape(e.0) + seq!['"', ':'] + render(e.1, display, ts, k)
}

/// The members' texts, separated by commas.
pub open spec fn render_members(es: Seq<(Seq<char>, ValueModel)>, display: bool, ts: Seq<Seq<char>>, k: int) -> Seq<char>
    decreases es, 1int,
{
    if es.len() == 0 {
        Seq::empty()
    } else if es.len() == 1 {
        render_member(es[0], display, ts, k)
    } else {
        render_members(es.drop_last(), display, ts, k) + seq![','] + render_member(
            es.last(),
            display,
            ts,
            k + members_float_count(es.drop_last()),
        )
    }
}

/// The compact JSON text of a value whose floats read `ts`, in order.
pub open spec fn json(m: ValueModel, ts: Seq<Seq<char>>) -> Seq<char> {
    render(m, false, ts, 0)
}

pub open spec fn hex_char(d: nat) -> char {
    if d < 10 {
        ((d + ('0' as nat)) as u32) as char
    } else {
        ((d - 10 + ('a' as nat)) as u32) as char
    }
}

/// A character as it stands inside a JSON string: `"` and `\\` escaped, the
/// control characters as `\\n`, `\\r`, `\\t` or `\\u00XX`.
pub open spec fn escape_char(c: char) -> Seq<char> {
    if c == '"' {
        seq!['\\', '"']
    } else if c == '\\' {
        seq!['\\', '\\']
    } else if c == '\n' {
        seq!['\\', 'n']
    } else if c == '\r' {
        seq!['\\', 'r']
    } else if c == '\t' {
        seq!['\\', 't']
    } else if (c as u32) < 0x20 {
        seq!['\\', 'u', '0', '0', hex_char((c as u32 / 16) as nat), hex_char((c as u32 % 16) as nat)]
    } else {
        seq![c]
    }
}

/// The text of a string's contents inside JSON quotes.
pub open spec fn escape(s: Seq<char>) -> Seq<char>
    decreases s.len(),
{
    if s.len() == 0 {
        Seq::empty()
    } else {
        escape(s.drop_last()) + escape_char(s.last())
    }
}

fn hex_digit(d: u32) -> (c: char)
    requires
        d < 16,
    ensures
        c == hex_char(d as nat),
{
    if d < 10 {
        crate::number::digit_to_char(d as u64)
    } else if d == 10 {
        'a'
    } else if d == 11 {
        'b'
    } else if d == 12 {
        'c'
    } else if d == 13 {
        'd'
    } else if d == 14 {
        'e'
    } else {
        'f'
    }
}

/// Appends the JSON escape of `c`.
fn push_escaped_char(out: &mut Vec<char>, c: char)
    ensures
        final(out)@ == old(out)@ + escape_char(c),
{
    let u = c as u32;
    if c == '"' {
        out.push('\\');
        out.push('"');
    } else if c == '\\' {
        out.push('\\');
        out.push('\\');
    } else if c == '\n' {
        out.push('\\');
        out.push('n');
    } else if c == '\r' {
        out.push('\\');
        out.push('r');
    } else if c == '\t' {
        out.push('\\');
        out.push('t');
    } else if u < 0x20 {
        out.push('\\');
        out.push('u');
        out.push('0');
        out.push('0');
        out.push(hex_digit(u / 16));
        out.push(hex_digit(u % 16));
    } else {
        out.push(c);
    }
    proof {
        assert(final(out)@ =~= old(out)@ + escape_char(c));
    }
}

/// Appends the JSON escape of the characters of `s`.
pub fn push_escaped(out: &mut Vec<char>, s: &str)
    ensures
        final(out)@ == old(out)@ + escape(s@),
{
    let cs = crate::text::chars_of(s);
    let mut i: usize = 0;
    proof {
        assert(cs@.subrange(0, 0) =~= Seq::<char>::empty());
        assert(out@ =~= old(out)@ + escape(cs@.subrange(0, 0)));
    }
    while i < cs.len()
        invariant
            i <= cs@.len(),
            cs@ == s@,
            out@ == old(out)@ + escape(cs@.subrange(0, i as int)),
        decreases cs@.len() - i,
    {
        push_escaped_char(out, cs[i]);
        proof {
            let q = cs@.subrange(0, i + 1);
            assert(q.drop_last() =~= cs@.subrange(0, i as int));
            assert(out@ =~= old(out)@ + escape(q));
        }
        i = i + 1;
    }
    proof {
        assert(cs@.subrange(0, cs@.len() as int) =~= cs@);
    }
}

/// Appends the characters of `s`.
pub fn push_str(out: &mut Vec<char>, s: &str)
    ensures
        final(out)@ == old(out)@ + s@,
{
    let cs = crate::text::chars_of(s);
    let mut i: usize = 0;
    while i < cs.len()
        invariant
            i <= cs@.len(),
            cs@ == s@,
            out@ == old(out)@ + cs@.subrange(0, i as int),
        decreases cs@.len() - i,
    {
        out.push(cs[i]);
        i = i + 1;
        proof {
            assert(out@ =~= old(out)@ + cs@.subrange(0, i as int));
        }
    }
    proof {
        assert(cs@.subrange(0, cs@.len() as int) =~= cs@);
    }
}

/// Appends the text of `v`, its floats shown by `texts` from `*cursor` on;
/// `*cursor` moves past them.
pub fn write_value(v: &AsonValue, texts: &Vec<String>, display: bool, cursor: &mut usize, out: &mut Vec<char>)
    requires
        *old(cursor) + float_count(model(*v)) <= texts@.len(),
    ensures
        *final(cursor) == *old(cursor) + float_count(model(*v)),
        final(out)@ == old(out)@ + render(model(*v), display, texts_view(texts@), *old(cursor) as int),
    decreases v,
{
    let ghost tv = texts_view(texts@);
    let ghost c0 = *cursor as int;
    match v {
        AsonValue::Function(_) => {
            if display {
                push_str(out, "Function");
                proof {
                    reveal_strlit("Function");
                }
            }
            proof {
                assert(final(out)@ =~= old(out)@ + render(model(*v), display, tv, c0));
            }
        },
        AsonValue::Object(entries) => {
            let ghost es = entries_model(entries@);
            proof {
                lemma_entries_model(entries@);
            }
            out.push('{');
            let ghost base = out@;
            let mut i: usize = 0;
            proof {
                assert(es.subrange(0, 0) =~= Seq::<(Seq<char>, ValueModel)>::empty());
                assert(base + Seq::<char>::empty() =~= base);
            }
            while i < entries.len()
                invariant
                    *v == AsonValue::Object(*entries),
                    es == entries_model(entries@),
                    es.len() == entries@.len(),
                    forall|j: int| 0 <= j < es.len() ==> #[trigger] es[j] == (entries@[j].0@, model(entries@[j].1)),
                    i <= entries@.len(),
                    tv == texts_view(texts@),
                    c0 + members_float_count(es) <= texts@.len(),
                    *cursor == c0 + members_float_count(es.subrange(0, i as int)),
                    out@ == base + render_members(es.subrange(0, i as int), display, tv, c0),
                decreases entries@.len() - i,
            {
                let ghost before = out@;
                let ghost sub = es.subrange(0, i + 1);
                proof {
                    assert(sub.drop_last() =~= es.subrange(0, i as int));
                    assert(sub.last() == es[i as int]);
                    lemma_members_float_count_prefix(es, i + 1);
                }
                if i > 0 {
                    out.push(',');
                }
                out.push('"');
                push_escaped(out, entries[i].0.as_str());
                out.push('"');
                out.push(':');
                proof {
                    assert(decreases_to!(*v => v->Object_0));
                    assert(decreases_to!(v->Object_0 => v->Object_0@));
                    assert(decreases_to!(entries@ => entries@[i as int]));
                    assert(decreases_to!(entries@[i as int] => entries@[i as int].1));
                }
                let ghost mid = out@;
                let ghost ci = *cursor as int;
                write_value(&entries[i].1, texts, display, cursor, out);
                proof {
                    let sep = if i > 0 { seq![','] } else { Seq::<char>::empty() };
                    assert(mid =~= before + sep + seq!['"'] + escape(es[i as int].0) + seq!['"', ':']);
                    assert(out@ =~= before + sep + render_member(es[i as int], display, tv, ci));
                    assert(out@ =~= base + render_members(sub, display, tv, c0));
                }
                i = i + 1;
            }
            out.push('}');
            proof {
                assert(es.subrange(0, es.len() as int) =~= es);
                assert(final(out)@ =~= old(out)@ + render(model(*v), display, tv, c0));
            }
        },
        AsonValue::Array(items) => {
            let ghost xs = items_model(items@);
            proof {
                lemma_items_model(items@);
            }
            out.push('[');
            let ghost base = out@;
            let mut i: usize = 0;
            proof {
                assert(xs.subrange(0, 0) =~= Seq::<ValueModel>::empty());
                assert(base + Seq::<char>::empty() =~= base);
            }
            while i < items.len()
                invariant
                    *v == AsonValue::Array(*items),
                    xs == items_model(items@),
                    xs.len() == items@.len(),
                    forall|j: int| 0 <= j < xs.len() ==> #[trigger] xs[j] == model(items@[j]),
                    i <= items@.len(),
                    tv == texts_view(texts@),
                    c0 + items_float_count(xs) <= texts@.len(),
                    *cursor == c0 + items_float_count(xs.subrange(0, i as int)),
                    out@ == base + render_items(xs.subrange(0, i as int), display, tv, c0),
                decreases items@.len() - i,
            {
                let ghost sub = xs.subrange(0, i + 1);
                proof {
                    assert(sub.drop_last() =~= xs.subrange(0, i as int));
                    assert(sub.last() == xs[i as int]);
                    lemma_items_float_count_prefix(xs, i + 1);
                }
                if i > 0 {
                    out.push(',');
                }
                proof {
                    assert(decreases_to!(*v => v->Array_0));
                    assert(decreases_to!(v->Array_0 => v->Array_0@));
                    assert(decreases_to!(items@ => items@[i as int]));
                }
                write_value(&items[i], texts, display, cursor, out);
                proof {
                    assert(out@ =~= base + render_items(sub, display, tv, c0));
                }
                i = i + 1;
            }
            out.push(']');
            proof {
                assert(xs.subrange(0, xs.len() as int) =~= xs);
                assert(final(out)@ =~= old(out)@ + render(model(*v), display, tv, c0));
            }
        },
        AsonValue::String(s) => {
            out.push('"');
            push_escaped(out, s.as_str());
            out.push('"');
            proof {
                assert(final(out)@ =~= old(out)@ + render(model(*v), display, tv, c0));
            }
        },
        AsonValue::Number(n) => {
            match n {
                AsonNumber::Integer(i) => {
                    push_decimal(*i, out);
                },
                AsonNumber::Float(_) => {
                    if *cursor < texts.len() {
                        push_str(out, texts[*cursor].as_str());
                        *cursor = *cursor + 1;
                    }
                },
            }
        },
        AsonValue::Boolean(b) => {
            if *b {
                push_str(out, "true");
                proof {
                    reveal_strlit("true");
                    assert(final(out)@ =~= old(out)@ + render(model(*v), display, tv, c0));
                }
            } else {
                push_str(out, "false");
                proof {
                    reveal_strlit("false");
                    assert(final(out)@ =~= old(out)@ + render(model(*v), display, tv, c0));
                }
            }
        },
        AsonValue::Null => {
            push_str(out, "null");
            proof {
                reveal_strlit("null");
                assert(final(out)@ =~= old(out)@ + render(model(*v), display, tv, c0));
            }
        },
    }
}

/// Appends the host's text of each float of `v`, in order.
pub fn collect_float_texts<H: Host>(v: &AsonValue, host: &H, texts: &mut Vec<String>)
    ensures
        final(texts)@.len() == old(texts)@.len() + float_count(model(*v)),
    decreases v,
{
    match v {
        AsonValue::Object(entries) => {
            let ghost es = entries_model(entries@);
            let ghost l0 = texts@.len();
            proof {
                lemma_entries_model(entries@);
                assert(es.subrange(0, 0) =~= Seq::<(Seq<char>, ValueModel)>::empty());
            }
            let mut i: usize = 0;
            while i < entries.len()
                invariant
                    *v == AsonValue::Object(*entries),
                    es == entries_model(entries@),
                    es.len() == entries@.len(),
                    forall|j: int| 0 <= j < es.len() ==> #[trigger] es[j] == (entries@[j].0@, model(entries@[j].1)),
                    i <= entries@.len(),
                    texts@.len() == l0 + members_float_count(es.subrange(0, i as int)),
                decreases entries@.len() - i,
            {
                proof {
                    assert(es.subrange(0, i + 1).drop_last() =~= es.subrange(0, i as int));
                    assert(decreases_to!(*v => v->Object_0));
                    assert(decreases_to!(v->Object_0 => v->Object_0@));
                    assert(decreases_to!(entries@ => entries@[i as int]));
                    assert(decreases_to!(entries@[i as int] => entries@[i as int].1));
                }
                collect_float_texts(&entries[i].1, host, texts);
                i = i + 1;
            }
            proof {
                assert(es.subrange(0, es.len() as int) =~= es);
            }
        },
        AsonValue::Array(items) => {
            let ghost xs = items_model(items@);
            let ghost l0 = texts@.len();
            proof {
                lemma_items_model(items@);
                assert(xs.subrange(0, 0) =~= Seq::<ValueModel>::empty());
            }
            let mut i: usize = 0;
            while i < items.len()
                invariant
                    *v == AsonValue::Array(*items),
                    xs == items_model(items@),
                    xs.len() == items@.len(),
                    forall|j: int| 0 <= j < xs.len() ==> #[trigger] xs[j] == model(items@[j]),
                    i <= items@.len(),
                    texts@.len() == l0 + items_float_count(xs.subrange(0, i as int)),
                decreases items@.len() - i,
            {
                proof {
                    assert(xs.subrange(0, i + 1).drop_last() =~= xs.subrange(0, i as int));
                    assert(decreases_to!(*v => v->Array_0));
                    assert(decreases_to!(v->Array_0 => v->Array_0@));
                    assert(decreases_to!(items@ => items@[i as int]));
                }
                collect_float_texts(&items[i], host, texts);
                i = i + 1;
            }
            proof {
                assert(xs.subrange(0, xs.len() as int) =~= xs);
            }
        },
        AsonValue::Number(AsonNumber::Float(bits)) => {
            texts.push(host.format_float(*bits));
        },
        _ => {},
    }
}

impl AsonValue {
    /// The compact JSON text of the value, its floats shown by
    /// `float_texts`, one per float in order: `{"k":v,...}`, `[v,...]`,
    /// strings quoted and escaped, integers in decimal, `true`, `false`,
    /// `null`; a function gives nothing.
    pub fn to_json_with(&self, float_texts: &Vec<String>) -> (r: String)
        requires
            float_count(model(*self)) <= float_texts@.len(),
        ensures
            r@ == json(model(*self), texts_view(float_texts@)),
    {
        let mut out: Vec<char> = Vec::new();
        let mut cursor: usize = 0;
        write_value(self, float_texts, false, &mut cursor, &mut out);
        proof {
            assert(out@ =~= Seq::<char>::empty() + out@);
        }
        string_of(out.as_slice())
    }

    /// The human-readable text of the value: the JSON text, with a function
    /// shown as `Function`.
    pub fn to_display_string_with(&self, float_texts: &Vec<String>) -> (r: String)
        requires
            float_count(model(*self)) <= float_texts@.len(),
        ensures
            r@ == render(model(*self), true, texts_view(float_texts@), 0),
    {
        let mut out: Vec<char> = Vec::new();
        let mut cursor: usize = 0;
        write_value(self, float_texts, true, &mut cursor, &mut out);
        proof {
            assert(out@ =~= Seq::<char>::empty() + out@);
        }
        string_of(out.as_slice())
    }

    /// The host's text of each float of the value, in order.
    pub fn float_texts<H: Host>(&self, host: &H) -> (r: Vec<String>)
        ensures
            r@.len() == float_count(model(*self)),
    {
        let mut texts: Vec<String> = Vec::new();
        collect_float_texts(self, host, &mut texts);
        texts
    }

    /// The compact JSON text of the value, each float shown as the host
    /// formats it.
    pub fn to_json<H: Host>(&self, host: &H) -> (r: String)
        ensures
            exists|ts: Seq<Seq<char>>| ts.len() == float_count(model(*self)) && r@ == #[trigger] json(model(*self), ts),
    {
        let texts = self.float_texts(host);
        self.to_json_with(&texts)
    }

    /// The human-readable text of the value, each float shown as the host
    /// formats it.
    pub fn to_display_string<H: Host>(&self, host: &H) -> (r: String)
        ensures
            exists|ts: Seq<Seq<char>>|
                ts.len() == float_count(model(*self)) && r@ == #[trigger] render(model(*self), true, ts, 0),
    {
        let texts = self.float_texts(host);
        self.to_display_string_with(&texts)
    }
}

/// No function anywhere in the value.
pub open spec fn function_free(m: ValueModel) -> bool
    decreases m, 0int,
{
    match m {
        ValueModel::Function(_) => false,
        ValueModel::Object(es) => members_function_free(es),
        ValueModel::Array(xs) => items_function_free(xs),
        _ => true,
    }
}

pub open spec fn items_function_free(xs: Seq<ValueModel>) -> bool
    decreases xs, 1int,
{
    if xs.len() == 0 {
        true
    } else {
        items_function_free(xs.drop_last()) && function_free(xs.last())
    }
}

pub open spec fn members_function_free(es: Seq<(Seq<char>, ValueModel)>) -> bool
    decreases es, 1int,
{
    if es.len() == 0 {
        true
    } else {
        members_function_free(es.drop_last()) && function_free(es.last().1)
    }
}

/// For a value without functions the human-readable text is its JSON text,
/// given the same texts for its floats.
pub proof fn lemma_display_is_json(m: ValueModel, ts: Seq<Seq<char>>, k: int)
    requires
        function_free(m),
    ensures
        render(m, true, ts, k) == render(m, false, ts, k),
    decreases m, 0int,
{
    match m {
        ValueModel::Object(es) => lemma_members_display_is_json(es, ts, k),
        ValueModel::Array(xs) => lemma_items_display_is_json(xs, ts, k),
        _ => {},
    }
}

pub proof fn lemma_items_display_is_json(xs: Seq<ValueModel>, ts: Seq<Seq<char>>, k: int)
    requires
        items_function_free(xs),
    ensures
        render_items(xs, true, ts, k) == render_items(xs, false, ts, k),
    decreases xs, 1int,
{
    if xs.len() > 0 {
        lemma_items_display_is_json(xs.drop_last(), ts, k);
        lemma_display_is_json(xs.last(), ts, k + items_float_count(xs.drop_last()));
        if xs.len() == 1 {
            assert(xs[0] == xs.last());
            lemma_display_is_json(xs[0], ts, k);
        }
    }
}

pub proof fn lemma_members_display_is_json(es: Seq<(Seq<char>, ValueModel)>, ts: Seq<Seq<char>>, k: int)
    requires
        members_function_free(es),
    ensures
        render_members(es, true, ts, k) == render_members(es, false, ts, k),
    decreases es, 1int,
{
    if es.len() > 0 {
        lemma_members_display_is_json(es.drop_last(), ts, k);
        let k2 = k + members_float_count(es.drop_last());
        lemma_display_is_json(es.last().1, ts, k2);
        assert(render_member(es.last(), true, ts, k2) == render_member(es.last(), false, ts, k2));
        if es.len() == 1 {
            assert(es[0] == es.last());
            lemma_display_is_json(es[0].1, ts, k);
            assert(render_member(es[0], true, ts, k) == render_member(es[0], false, ts, k));
        }
    }
}

impl From<i64> for AsonValue {
    fn from(value: i64) -> (r: Self) {
        AsonValue::Number(AsonNumber::Integer(value))
    }
}

impl vstd::std_specs::convert::FromSpecImpl<i64> for AsonValue {
    open spec fn obeys_from_spec() -> bool {
        true
    }

    open spec fn from_spec(value: i64) -> Self {
        AsonValue::Number(AsonNumber::Integer(value))
    }
}

impl From<bool> for AsonValue {
    fn from(value: bool) -> (r: Self) {
        AsonValue::Boolean(value)
    }
}

impl vstd::std_specs::convert::FromSpecImpl<bool> for AsonValue {
    open spec fn obeys_from_spec() -> bool {
        true
    }

    open spec fn from_spec(value: bool) -> Self {
        AsonValue::Boolean(value)
    }
}

impl From<String> for AsonValue {
    fn from(value: String) -> (r: Self) {
        AsonValue::String(value)
    }
}

impl vstd::std_specs::convert::FromSpecImpl<String> for AsonValue {
    open spec fn obeys_from_spec() -> bool {
        true
    }

    open spec fn from_spec(value: String) -> Self {
        AsonValue::String(value)
    }
}

/// Binding a key twice keeps the second value, and the key stays unique.
pub proof fn lemma_last_write_wins<V>(s: Seq<(Seq<char>, V)>, k: Seq<char>, v1: V, v2: V)
    requires
        keys_unique(s),
    ensures
        assoc_get(assoc_insert(assoc_insert(s, k, v1), k, v2), k) == Some(v2),
        keys_unique(assoc_insert(assoc_insert(s, k, v1), k, v2)),
        assoc_insert(assoc_insert(s, k, v1), k, v2).len() == assoc_insert(s, k, v1).len(),
{
    lemma_assoc_insert_unique(s, k, v1);
    lemma_assoc_insert_unique(assoc_insert(s, k, v1), k, v2);
    lemma_key_index_from(assoc_insert(s, k, v1), k, 0);
}

} // verus!
