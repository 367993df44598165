use vstd::prelude::*;

use crate::environment::builtins;
use crate::number::fits_i64;
use crate::parser::{
    member_value_start, parse_document_spec, parse_elements_spec,
    parse_members_spec, parse_value_spec,
};
use crate::runtime::EnvModel;
use crate::token::TokenModel;
use crate::value::{assoc_insert, key_index, keys_unique, lemma_key_index_from, ValueModel};

verus! {

/// A value that a document without expression forms can denote: no
/// function, integers within `i64`, each object's keys distinct.
pub open spec fn plain(m: ValueModel) -> bool
    decreases m, 0int,
{
    match m {
        ValueModel::Function(_) => false,
        ValueModel::Object(es) => keys_unique(es) && plain_members(es, 0),
        ValueModel::Array(xs) => plain_items(xs, 0),
        ValueModel::Integer(i) => fits_i64(i),
        _ => true,
    }
}

pub open spec fn plain_members(es: Seq<(Seq<char>, ValueModel)>, i: int) -> bool
    decreases es, es.len() - i,
{
    if i < 0 || i >= es.len() {
        true
    } else {
        plain(es[i].1) && plain_members(es, i + 1)
    }
}

pub open spec fn plain_items(xs: Seq<ValueModel>, i: int) -> bool
    decreases xs, xs.len() - i,
{
    if i < 0 || i >= xs.len() {
        true
    } else {
        plain(xs[i]) && plain_items(xs, i + 1)
    }
}

/// The tokens of a plain value written as a document: objects as
/// `key: value` members and arrays as elements, separated by commas.
pub open spec fn value_tokens(m: ValueModel) -> Seq<TokenModel>
    decreases m, 0int,
{
    match m {
        ValueModel::Object(es) => seq![TokenModel::OpenObject] + members_tokens(es, 0) + seq![
            TokenModel::CloseObject,
        ],
        ValueModel::Array(xs) => seq![TokenModel::OpenArray] + items_tokens(xs, 0) + seq![
            TokenModel::CloseArray,
        ],
        ValueModel::Str(s) => seq![TokenModel::StringLiteral(s)],
        ValueModel::Integer(i) => seq![TokenModel::IntegerLiteral(i)],
        ValueModel::Float => seq![TokenModel::FloatLiteral(seq!['0', '.', '0'])],
        ValueModel::Boolean(b) => if b {
            seq![TokenModel::True]
        } else {
            seq![TokenModel::False]
        },
        ValueModel::Null => seq![TokenModel::Null],
        ValueModel::Function(_) => Seq::empty(),
    }
}

pub open spec fn separator(i: int) -> Seq<TokenModel> {
    if i > 0 {
        seq![TokenModel::Comma]
    } else {
        Seq::empty()
    }
}

/// The members from index `i` on.
pub open spec fn members_tokens(es: Seq<(Seq<char>, ValueModel)>, i: int) -> Seq<TokenModel>
    decreases es, es.len() - i,
{
    if i < 0 || i >= es.len() {
        Seq::empty()
    } else {
        separator(i) + seq![TokenModel::StringLiteral(es[i].0), TokenModel::Colon] + value_tokens(
            es[i].1,
        ) + members_tokens(es, i + 1)
    }
}

/// The elements from index `i` on.
pub open spec fn items_tokens(xs: Seq<ValueModel>, i: int) -> Seq<TokenModel>
    decreases xs, xs.len() - i,
{
    if i < 0 || i >= xs.len() {
        Seq::empty()
    } else {
        separator(i) + value_tokens(xs[i]) + items_tokens(xs, i + 1)
    }
}

proof fn lemma_slice(t: Seq<TokenModel>, pos: int, a: Seq<TokenModel>, b: Seq<TokenModel>)
    requires
        0 <= pos,
        pos + a.len() + b.len() <= t.len(),
        t.subrange(pos, pos + a.len() + b.len()) == a + b,
    ensures
        t.subrange(pos, pos + a.len()) == a,
        t.subrange(pos + a.len(), pos + a.len() + b.len()) == b,
{
    assert(t.subrange(pos, pos + a.len()) =~= (a + b).subrange(0, a.len() as int));
    assert((a + b).subrange(0, a.len() as int) =~= a);
    assert(t.subrange(pos + a.len(), pos + a.len() + b.len()) =~= (a + b).subrange(
        a.len() as int,
        (a.len() + b.len()) as int,
    ));
    assert((a + b).subrange(a.len() as int, (a.len() + b.len()) as int) =~= b);
}

proof fn lemma_at(t: Seq<TokenModel>, pos: int, a: Seq<TokenModel>, j: int)
    requires
        0 <= pos,
        pos + a.len() <= t.len(),
        t.subrange(pos, pos + a.len()) == a,
        0 <= j < a.len(),
    ensures
        t[pos + j] == a[j],
{
    assert(t.subrange(pos, pos + a.len())[j] == t[pos + j]);
}

/// The tokens of a plain value parse back to that value, wherever they
/// stand, and leave the environment alone.
pub proof fn lemma_parse_plain(m: ValueModel, t: Seq<TokenModel>, pos: int, env: EnvModel)
    requires
        plain(m),
        0 <= pos,
        pos + value_tokens(m).len() <= t.len(),
        t.subrange(pos, pos + value_tokens(m).len()) == value_tokens(m),
    ensures
        parse_value_spec(t, pos, env) == Some::<Result<(ValueModel, int, EnvModel), crate::parser::ParseErrorKind>>(
            Ok((m, pos + value_tokens(m).len(), env)),
        ),
    decreases m, 0int,
{
    let vt = value_tokens(m);
    match m {
        ValueModel::Object(es) => {
            let inner = members_tokens(es, 0);
            let open = seq![TokenModel::OpenObject];
            let close = seq![TokenModel::CloseObject];
            lemma_slice(t, pos, open + inner, close);
            lemma_slice(t, pos, open, inner);
            lemma_at(t, pos, open, 0);
            lemma_at(t, pos + 1 + inner.len(), close, 0);
            lemma_parse_members(es, 0, t, pos + 1, env);
            assert(es.subrange(0, 0) =~= Seq::<(Seq<char>, ValueModel)>::empty());
        },
        ValueModel::Array(xs) => {
            let inner = items_tokens(xs, 0);
            let open = seq![TokenModel::OpenArray];
            let close = seq![TokenModel::CloseArray];
            lemma_slice(t, pos, open + inner, close);
            lemma_slice(t, pos, open, inner);
            lemma_at(t, pos, open, 0);
            lemma_at(t, pos + 1 + inner.len(), close, 0);
            lemma_parse_items(xs, 0, t, pos + 1, env);
            assert(xs.subrange(0, 0) =~= Seq::<ValueModel>::empty());
        },
        _ => {
            lemma_at(t, pos, vt, 0);
        },
    }
}

/// The members of a plain object from index `i` on, followed by the closing
/// token, parse to the whole object.
pub proof fn lemma_parse_members(es: Seq<(Seq<char>, ValueModel)>, i: int, t: Seq<TokenModel>, pos: int, env: EnvModel)
    requires
        keys_unique(es),
        plain_members(es, i),
        0 <= i <= es.len(),
        0 <= pos,
        pos + members_tokens(es, i).len() < t.len(),
        t.subrange(pos, pos + members_tokens(es, i).len()) == members_tokens(es, i),
        t[pos + members_tokens(es, i).len()] == TokenModel::CloseObject,
    ensures
        parse_members_spec(t, pos, es.subrange(0, i), env) == Some::<Result<(ValueModel, int, EnvModel), crate::parser::ParseErrorKind>>(
            Ok((ValueModel::Object(es), pos + members_tokens(es, i).len() + 1, env)),
        ),
    decreases es, es.len() - i,
{
    if i >= es.len() {
        assert(es.subrange(0, i) =~= es);
    } else {
        let k = es[i].0;
        let v = es[i].1;
        let sep = separator(i);
        let kc = seq![TokenModel::StringLiteral(k), TokenModel::Colon];
        let vt = value_tokens(v);
        let rest = members_tokens(es, i + 1);
        lemma_slice(t, pos, sep + kc + vt, rest);
        lemma_slice(t, pos, sep + kc, vt);
        lemma_slice(t, pos, sep, kc);
        let p0 = pos + sep.len();
        lemma_at(t, p0, kc, 0);
        lemma_at(t, p0, kc, 1);
        let after = pos + sep.len() + kc.len() + vt.len();
        lemma_parse_plain(v, t, p0 + 2, env);
        assert(member_value_start(t, p0) == p0 + 2);
        lemma_key_index_from(es.subrange(0, i), k, 0);
        assert(key_index(es.subrange(0, i), k) == -1) by {
            if key_index(es.subrange(0, i), k) != -1 {
                let j = key_index(es.subrange(0, i), k);
                assert(es[j].0 == es[i].0);
            }
        }
        assert(assoc_insert(es.subrange(0, i), k, v) =~= es.subrange(0, i + 1));
        lemma_parse_members(es, i + 1, t, after, env);
        if i > 0 {
            lemma_at(t, pos, sep, 0);
            assert(parse_members_spec(t, pos, es.subrange(0, i), env) == parse_members_spec(t, pos + 1, es.subrange(0, i), env));
        }
    }
}

/// The elements of a plain array from index `i` on, followed by the closing
/// token, parse to the whole array.
pub proof fn lemma_parse_items(xs: Seq<ValueModel>, i: int, t: Seq<TokenModel>, pos: int, env: EnvModel)
    requires
        plain_items(xs, i),
        0 <= i <= xs.len(),
        0 <= pos,
        pos + items_tokens(xs, i).len() < t.len(),
        t.subrange(pos, pos + items_tokens(xs, i).len()) == items_tokens(xs, i),
        t[pos + items_tokens(xs, i).len()] == TokenModel::CloseArray,
    ensures
        parse_elements_spec(t, pos, xs.subrange(0, i), env) == Some::<Result<(ValueModel, int, EnvModel), crate::parser::ParseErrorKind>>(
            Ok((ValueModel::Array(xs), pos + items_tokens(xs, i).len() + 1, env)),
        ),
    decreases xs, xs.len() - i,
{
    if i >= xs.len() {
        assert(xs.subrange(0, i) =~= xs);
    } else {
        let v = xs[i];
        let sep = separator(i);
        let vt = value_tokens(v);
        let rest = items_tokens(xs, i + 1);
        lemma_slice(t, pos, sep + vt, rest);
        lemma_slice(t, pos, sep, vt);
        let p0 = pos + sep.len();
        let after = p0 + vt.len();
        lemma_value_tokens_nonempty(v);
        lemma_parse_plain(v, t, p0, env);
        lemma_at(t, p0, vt, 0);
        lemma_value_tokens_start(v);
        assert(xs.subrange(0, i).push(v) =~= xs.subrange(0, i + 1));
        lemma_parse_items(xs, i + 1, t, after, env);
        if i > 0 {
            lemma_at(t, pos, sep, 0);
            assert(parse_elements_spec(t, pos, xs.subrange(0, i), env) == parse_elements_spec(t, pos + 1, xs.subrange(0, i), env));
        }
    }
}

proof fn lemma_value_tokens_nonempty(m: ValueModel)
    requires
        plain(m),
    ensures
        value_tokens(m).len() >= 1,
{
}

/// A plain value's tokens start with neither a comma nor a closing token.
proof fn lemma_value_tokens_start(m: ValueModel)
    requires
        plain(m),
    ensures
        !(value_tokens(m)[0] is Comma),
        !(value_tokens(m)[0] is CloseArray),
{
}

/// A document without expression forms resolves to the value it writes
/// down: the tokens of any plain value parse, in a fresh environment, to
/// exactly that value. With the contracts of `Parser::parse` and
/// `AsonValue::to_json`, the JSON text printed for it is `json(m, ts)` for
/// the host's texts `ts` of its floats.
pub proof fn lemma_plain_document_round_trip(m: ValueModel)
    requires
        plain(m),
    ensures
        parse_document_spec(value_tokens(m)) == Some::<Result<ValueModel, crate::parser::ParseErrorKind>>(Ok(m)),
{
    let t = value_tokens(m);
    assert(t.subrange(0, t.len() as int) =~= t);
    lemma_parse_plain(m, t, 0, builtins());
}

} // verus!
