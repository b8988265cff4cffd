use vstd::prelude::*;

use crate::lexer::{token_view, tokens_view, Token, TokenKind, TokenModel, TokenSpec};
use crate::value::{
    OpamFile, EnvUpdateOp, EnvUpdateOpKind, LogOp, LogOpKind, OpamFileItem, OpamFileSection, PfxOp,
    PfxOpKind, RelOp, RelOpKind, Value, ValueKind,
};

verus! {

broadcast use vstd::std_specs::vec::axiom_vec_decreases_to_view, vstd::seq::axiom_seq_index_decreases;

/// A span of character offsets, as the model sees it.
pub type Span = (int, int);

/// A value of the syntax tree as the model sees it: text as character
/// sequences, children as sequences.
pub enum ValueKindModel {
    Bool(bool),
    Int(int),
    Str(Seq<char>),
    Ident(Seq<char>),
    List(Seq<ValueModel>),
    Group(Seq<ValueModel>),
    RelOp(RelOpKind, Span, Box<ValueModel>, Box<ValueModel>),
    PrefixRelOp(RelOpKind, Span, Box<ValueModel>),
    LogOp(LogOpKind, Span, Box<ValueModel>, Box<ValueModel>),
    PfxOp(PfxOpKind, Span, Box<ValueModel>),
    Option(Box<ValueModel>, Seq<ValueModel>),
    EnvBinding(Box<ValueModel>, EnvUpdateOpKind, Span, Box<ValueModel>),
}

pub struct ValueModel {
    pub kind: ValueKindModel,
    pub span: Span,
}

pub enum ItemModel {
    Section(Span, Seq<char>, Option<Seq<char>>, Seq<ItemModel>),
    Variable(Span, Seq<char>, ValueModel),
}

pub open spec fn span_of(p: (usize, usize)) -> Span {
    (p.0 as int, p.1 as int)
}

pub open spec fn value_model(v: Value) -> ValueModel
    decreases v, 0nat,
{
    let kind = match v.kind {
        ValueKind::Bool(b) => ValueKindModel::Bool(b),
        ValueKind::Int(i) => ValueKindModel::Int(i as int),
        ValueKind::String(s) => ValueKindModel::Str(s@),
        ValueKind::Ident(s) => ValueKindModel::Ident(s@),
        ValueKind::List(l) => ValueKindModel::List(values_model(l@, l@.len() as int)),
        ValueKind::Group(l) => ValueKindModel::Group(values_model(l@, l@.len() as int)),
        ValueKind::RelOp(op, l, r) => ValueKindModel::RelOp(
            op.kind,
            span_of(op.pos),
            Box::new(value_model(*l)),
            Box::new(value_model(*r)),
        ),
        ValueKind::PrefixRelOp(op, r) => ValueKindModel::PrefixRelOp(
            op.kind,
            span_of(op.pos),
            Box::new(value_model(*r)),
        ),
        ValueKind::LogOp(op, l, r) => ValueKindModel::LogOp(
            op.kind,
            span_of(op.pos),
            Box::new(value_model(*l)),
            Box::new(value_model(*r)),
        ),
        ValueKind::PfxOp(op, r) => ValueKindModel::PfxOp(
            op.kind,
            span_of(op.pos),
            Box::new(value_model(*r)),
        ),
        ValueKind::Option(b, l) => ValueKindModel::Option(
            Box::new(value_model(*b)),
            values_model(l@, l@.len() as int),
        ),
        ValueKind::EnvBinding(l, op, r) => ValueKindModel::EnvBinding(
            Box::new(value_model(*l)),
            op.kind,
            span_of(op.pos),
            Box::new(value_model(*r)),
        ),
    };
    ValueModel { kind, span: span_of(v.pos) }
}

/// The models of the first `n` values of `vs`.
pub open spec fn values_model(vs: Seq<Value>, n: int) -> Seq<ValueModel>
    decreases vs, n,
{
    if n <= 0 || n > vs.len() {
        seq![]
    } else {
        values_model(vs, n - 1).push(value_model(vs[n - 1]))
    }
}

pub open spec fn item_model(it: OpamFileItem) -> ItemModel
    decreases it, 0nat,
{
    match it {
        OpamFileItem::Section(p, sec) => ItemModel::Section(
            span_of(p),
            sec.section_kind@,
            match sec.section_name {
                Some(n) => Some(n@),
                None => None,
            },
            items_model(sec.section_item@, sec.section_item@.len() as int),
        ),
        OpamFileItem::Variable(p, key, v) => ItemModel::Variable(span_of(p), key@, value_model(v)),
    }
}

/// The models of the first `n` items of `its`.
pub open spec fn items_model(its: Seq<OpamFileItem>, n: int) -> Seq<ItemModel>
    decreases its, n,
{
    if n <= 0 || n > its.len() {
        seq![]
    } else {
        items_model(its, n - 1).push(item_model(its[n - 1]))
    }
}

/// The kind of the token at `i`, or the end marker outside the sequence.
pub open spec fn kind_at(ts: Seq<TokenSpec>, i: int) -> TokenModel {
    if 0 <= i < ts.len() {
        ts[i].0
    } else {
        TokenModel::Eof
    }
}

pub open spec fn span_at(ts: Seq<TokenSpec>, i: int) -> Span {
    (ts[i].1, ts[i].2)
}

pub open spec fn mk(kind: ValueKindModel, start: int, end: int) -> ValueModel {
    ValueModel { kind, span: (start, end) }
}

/// An atom at `pos`: a literal, `[ values ]` or `( values )`; the model and
/// the index after it.
pub open spec fn atom(ts: Seq<TokenSpec>, pos: int) -> Option<(ValueModel, int)>
    decreases ts.len() - pos, 1nat,
{
    if pos < 0 || pos >= ts.len() {
        None
    } else {
        let (s, e) = span_at(ts, pos);
        match kind_at(ts, pos) {
            TokenModel::Bool(b) => Some((mk(ValueKindModel::Bool(b), s, e), pos + 1)),
            TokenModel::Int(i) => Some((mk(ValueKindModel::Int(i), s, e), pos + 1)),
            TokenModel::Str(t) => Some((mk(ValueKindModel::Str(t), s, e), pos + 1)),
            TokenModel::Ident(t) => Some((mk(ValueKindModel::Ident(t), s, e), pos + 1)),
            TokenModel::LBracket => match values_until(ts, pos + 1, TokenModel::RBracket, seq![]) {
                Some((vs, n)) => Some((mk(ValueKindModel::List(vs), s, span_at(ts, n).1), n + 1)),
                None => None,
            },
            TokenModel::LPar => match values_until(ts, pos + 1, TokenModel::RPar, seq![]) {
                Some((vs, n)) => Some((mk(ValueKindModel::Group(vs), s, span_at(ts, n).1), n + 1)),
                None => None,
            },
            _ => None,
        }
    }
}

/// Values from `pos` on, after `acc`, up to the first token of kind
/// `closer` at the start of a value: the values and the closer's index.
pub open spec fn values_until(
    ts: Seq<TokenSpec>,
    pos: int,
    closer: TokenModel,
    acc: Seq<ValueModel>,
) -> Option<(Seq<ValueModel>, int)>
    decreases ts.len() - pos, 6nat,
{
    if pos < 0 || pos >= ts.len() {
        None
    } else if kind_at(ts, pos) == closer {
        Some((acc, pos))
    } else {
        match value(ts, pos) {
            Some((v, n)) => if pos < n <= ts.len() {
                values_until(ts, n, closer, acc.push(v))
            } else {
                None
            },
            None => None,
        }
    }
}

/// An atom with at most one qualifier: `{ filters }` or an environment
/// update operator and a second atom.
pub open spec fn postfix(ts: Seq<TokenSpec>, pos: int) -> Option<(ValueModel, int)>
    decreases ts.len() - pos, 2nat,
{
    if pos < 0 || pos >= ts.len() {
        None
    } else {
        match atom(ts, pos) {
            Some((a, n)) => if !(pos < n < ts.len()) {
                None
            } else {
                match kind_at(ts, n) {
                    TokenModel::LBrace => match values_until(ts, n + 1, TokenModel::RBrace, seq![]) {
                        Some((fs, m)) => Some(
                            (
                                mk(ValueKindModel::Option(Box::new(a), fs), a.span.0, span_at(ts, m).1),
                                m + 1,
                            ),
                        ),
                        None => None,
                    },
                    TokenModel::EnvOp(k) => match atom(ts, n + 1) {
                        Some((b, m)) => Some(
                            (
                                mk(
                                    ValueKindModel::EnvBinding(
                                        Box::new(a),
                                        k,
                                        span_at(ts, n),
                                        Box::new(b),
                                    ),
                                    a.span.0,
                                    b.span.1,
                                ),
                                m,
                            ),
                        ),
                        None => None,
                    },
                    _ => Some((a, n)),
                }
            },
            None => None,
        }
    }
}

/// `!` and `?` applied to what follows them, or a qualified atom.
pub open spec fn prefix(ts: Seq<TokenSpec>, pos: int) -> Option<(ValueModel, int)>
    decreases ts.len() - pos, 3nat,
{
    if pos < 0 || pos >= ts.len() {
        None
    } else {
        match kind_at(ts, pos) {
            TokenModel::PfxOp(k) => match prefix(ts, pos + 1) {
                Some((v, n)) => Some(
                    (
                        mk(
                            ValueKindModel::PfxOp(k, span_at(ts, pos), Box::new(v)),
                            span_at(ts, pos).0,
                            v.span.1,
                        ),
                        n,
                    ),
                ),
                None => None,
            },
            _ => postfix(ts, pos),
        }
    }
}

/// A comparison `a op b`, a relational operator before one operand, or an
/// operand alone. Comparisons do not chain.
pub open spec fn relational(ts: Seq<TokenSpec>, pos: int) -> Option<(ValueModel, int)>
    decreases ts.len() - pos, 4nat,
{
    if pos < 0 || pos >= ts.len() {
        None
    } else {
        match kind_at(ts, pos) {
            TokenModel::RelOp(k) => match prefix(ts, pos + 1) {
                Some((v, n)) => Some(
                    (
                        mk(
                            ValueKindModel::PrefixRelOp(k, span_at(ts, pos), Box::new(v)),
                            span_at(ts, pos).0,
                            v.span.1,
                        ),
                        n,
                    ),
                ),
                None => None,
            },
            _ => match prefix(ts, pos) {
                Some((l, n)) => if !(pos < n < ts.len()) {
                    None
                } else {
                    match kind_at(ts, n) {
                        TokenModel::RelOp(k) => match prefix(ts, n + 1) {
                            Some((r, m)) => Some(
                                (
                                    mk(
                                        ValueKindModel::RelOp(
                                            k,
                                            span_at(ts, n),
                                            Box::new(l),
                                            Box::new(r),
                                        ),
                                        l.span.0,
                                        r.span.1,
                                    ),
                                    m,
                                ),
                            ),
                            None => None,
                        },
                        _ => Some((l, n)),
                    }
                },
                None => None,
            },
        }
    }
}

pub open spec fn logop_of(k: TokenModel) -> Option<LogOpKind> {
    match k {
        TokenModel::And => Some(LogOpKind::And),
        TokenModel::Or => Some(LogOpKind::Or),
        _ => None,
    }
}

/// Continues a chain of `&` and `|` at `pos`, with everything to the left
/// already combined into `left`: the chain groups to the left.
pub open spec fn logical_rest(ts: Seq<TokenSpec>, pos: int, left: ValueModel) -> Option<
    (ValueModel, int),
>
    decreases ts.len() - pos, 5nat,
{
    if pos < 0 || pos >= ts.len() {
        None
    } else {
        match logop_of(kind_at(ts, pos)) {
            Some(k) => match relational(ts, pos + 1) {
                Some((r, m)) => if pos < m <= ts.len() {
                    logical_rest(
                        ts,
                        m,
                        mk(
                            ValueKindModel::LogOp(k, span_at(ts, pos), Box::new(left), Box::new(r)),
                            left.span.0,
                            r.span.1,
                        ),
                    )
                } else {
                    None
                },
                None => None,
            },
            None => Some((left, pos)),
        }
    }
}

/// A full value at `pos`: the model and the index after it.
pub open spec fn value(ts: Seq<TokenSpec>, pos: int) -> Option<(ValueModel, int)>
    decreases ts.len() - pos, 5nat,
{
    if pos < 0 || pos >= ts.len() {
        None
    } else {
        match relational(ts, pos) {
            Some((l, n)) => if pos < n <= ts.len() {
                logical_rest(ts, n, l)
            } else {
                None
            },
            None => None,
        }
    }
}

/// An item at `pos`: `key : value`, or `kind "name"? { items }`.
pub open spec fn item(ts: Seq<TokenSpec>, pos: int) -> Option<(ItemModel, int)>
    decreases ts.len() - pos, 1nat,
{
    if pos < 0 || pos >= ts.len() {
        None
    } else {
        match kind_at(ts, pos) {
            TokenModel::Ident(key) => match kind_at(ts, pos + 1) {
                TokenModel::Colon => match value(ts, pos + 2) {
                    Some((v, n)) => Some(
                        (ItemModel::Variable((span_at(ts, pos).0, v.span.1), key, v), n),
                    ),
                    None => None,
                },
                TokenModel::Str(name) => if kind_at(ts, pos + 2) == TokenModel::LBrace {
                    section(ts, pos, key, Some(name), pos + 3)
                } else {
                    None
                },
                TokenModel::LBrace => section(ts, pos, key, None, pos + 2),
                _ => None,
            },
            _ => None,
        }
    }
}

/// The body of a section that starts at `start`, from `body` on.
pub open spec fn section(
    ts: Seq<TokenSpec>,
    start: int,
    kind: Seq<char>,
    name: Option<Seq<char>>,
    body: int,
) -> Option<(ItemModel, int)>
    decreases ts.len() - start, 0nat,
{
    if !(0 <= start < body <= ts.len()) {
        None
    } else {
        match items_until(ts, body, TokenModel::RBrace, seq![]) {
            Some((its, n)) => Some(
                (ItemModel::Section((span_at(ts, start).0, span_at(ts, n).1), kind, name, its), n + 1),
            ),
            None => None,
        }
    }
}

/// Items from `pos` on, after `acc`, up to the first token of kind `closer`
/// where an item could start: the items and the closer's index.
pub open spec fn items_until(
    ts: Seq<TokenSpec>,
    pos: int,
    closer: TokenModel,
    acc: Seq<ItemModel>,
) -> Option<(Seq<ItemModel>, int)>
    decreases ts.len() - pos, 2nat,
{
    if pos < 0 || pos >= ts.len() {
        None
    } else if kind_at(ts, pos) == closer {
        Some((acc, pos))
    } else {
        match item(ts, pos) {
            Some((it, n)) => if pos < n <= ts.len() {
                items_until(ts, n, closer, acc.push(it))
            } else {
                None
            },
            None => None,
        }
    }
}

/// The items of a whole token sequence, up to its end marker.
pub open spec fn file_items(ts: Seq<TokenSpec>) -> Option<Seq<ItemModel>> {
    match items_until(ts, 0, TokenModel::Eof, seq![]) {
        Some((its, _)) => Some(its),
        None => None,
    }
}

proof fn lemma_values_model_prefix(vs: Seq<Value>, x: Value, n: int)
    requires
        0 <= n <= vs.len(),
    ensures
        values_model(vs.push(x), n) == values_model(vs, n),
    decreases n,
{
    if n > 0 {
        lemma_values_model_prefix(vs, x, n - 1);
        assert(vs.push(x)[n - 1] == vs[n - 1]);
    }
}

proof fn lemma_values_model_push(vs: Seq<Value>, x: Value)
    ensures
        values_model(vs.push(x), vs.len() as int + 1) == values_model(vs, vs.len() as int).push(
            value_model(x),
        ),
{
    lemma_values_model_prefix(vs, x, vs.len() as int);
    assert(vs.push(x)[vs.len() as int] == x);
}

proof fn lemma_items_model_prefix(its: Seq<OpamFileItem>, x: OpamFileItem, n: int)
    requires
        0 <= n <= its.len(),
    ensures
        items_model(its.push(x), n) == items_model(its, n),
    decreases n,
{
    if n > 0 {
        lemma_items_model_prefix(its, x, n - 1);
        assert(its.push(x)[n - 1] == its[n - 1]);
    }
}

proof fn lemma_items_model_push(its: Seq<OpamFileItem>, x: OpamFileItem)
    ensures
        items_model(its.push(x), its.len() as int + 1) == items_model(its, its.len() as int).push(
            item_model(x),
        ),
{
    lemma_items_model_prefix(its, x, its.len() as int);
    assert(its.push(x)[its.len() as int] == x);
}

/// The token kinds that close a repetition.
pub open spec fn is_closer(k: TokenModel) -> bool {
    k == TokenModel::Eof || k == TokenModel::RBracket || k == TokenModel::RPar || k
        == TokenModel::RBrace
}

fn same_closer(k: &TokenKind, closer: &TokenKind) -> (r: bool)
    requires
        is_closer(closer@),
    ensures
        r == (k@ == closer@),
{
    match (k, closer) {
        (TokenKind::EOF, TokenKind::EOF) => true,
        (TokenKind::RBRACKET, TokenKind::RBRACKET) => true,
        (TokenKind::RPAR, TokenKind::RPAR) => true,
        (TokenKind::RBRACE, TokenKind::RBRACE) => true,
        _ => false,
    }
}

fn p_atom(ts: &Vec<Token>, pos: usize) -> (r: Option<(Value, usize)>)
    ensures
        match (r, atom(tokens_view(ts@), pos as int)) {
            (Some((v, n)), Some((sv, sn))) => value_model(v) == sv && n == sn && pos < n
                <= ts@.len(),
            (None, None) => true,
            _ => false,
        },
    decreases ts@.len() - pos, 1nat,
{
    if pos >= ts.len() {
        return None;
    }
    let ghost t = tokens_view(ts@);
    assert(t[pos as int] == token_view(ts@[pos as int]));
    let sp = (ts[pos].1, ts[pos].2);
    match &ts[pos].0 {
        TokenKind::BOOL(b) => Some((Value { kind: ValueKind::Bool(*b), pos: sp }, pos + 1)),
        TokenKind::INT(i) => Some((Value { kind: ValueKind::Int(*i), pos: sp }, pos + 1)),
        TokenKind::STRING(x) => Some((Value { kind: ValueKind::String(x.clone()), pos: sp }, pos + 1)),
        TokenKind::IDENT(x) => Some((Value { kind: ValueKind::Ident(x.clone()), pos: sp }, pos + 1)),
        TokenKind::LBRACKET => match p_values_until(ts, pos + 1, &TokenKind::RBRACKET) {
            Some((vs, n)) => {
                assert(t[n as int] == token_view(ts@[n as int]));
                Some((Value { kind: ValueKind::List(vs), pos: (sp.0, ts[n].2) }, n + 1))
            },
            None => None,
        },
        TokenKind::LPAR => match p_values_until(ts, pos + 1, &TokenKind::RPAR) {
            Some((vs, n)) => {
                assert(t[n as int] == token_view(ts@[n as int]));
                Some((Value { kind: ValueKind::Group(vs), pos: (sp.0, ts[n].2) }, n + 1))
            },
            None => None,
        },
        _ => None,
    }
}

fn p_values_until(ts: &Vec<Token>, pos: usize, closer: &TokenKind) -> (r: Option<
    (Vec<Value>, usize),
>)
    requires
        is_closer(closer@),
    ensures
        match (r, values_until(tokens_view(ts@), pos as int, closer@, seq![])) {
            (Some((vs, n)), Some((svs, sn))) => values_model(vs@, vs@.len() as int) == svs && n
                == sn && pos <= n < ts@.len(),
            (None, None) => true,
            _ => false,
        },
    decreases ts@.len() - pos, 6nat,
{
    let ghost t = tokens_view(ts@);
    let mut acc: Vec<Value> = Vec::new();
    let mut p = pos;
    loop
        invariant
            pos <= p,
            t == tokens_view(ts@),
            is_closer(closer@),
            values_until(t, p as int, closer@, values_model(acc@, acc@.len() as int))
                == values_until(t, pos as int, closer@, seq![]),
        decreases ts@.len() - p,
    {
        if p >= ts.len() {
            return None;
        }
        assert(t[p as int] == token_view(ts@[p as int]));
        if same_closer(&ts[p].0, closer) {
            return Some((acc, p));
        }
        match p_value(ts, p) {
            Some((v, n)) => {
                proof {
                    lemma_values_model_push(acc@, v);
                }
                acc.push(v);
                p = n;
            },
            None => {
                return None;
            },
        }
    }
}

fn p_postfix(ts: &Vec<Token>, pos: usize) -> (r: Option<(Value, usize)>)
    ensures
        match (r, postfix(tokens_view(ts@), pos as int)) {
            (Some((v, n)), Some((sv, sn))) => value_model(v) == sv && n == sn && pos < n
                <= ts@.len(),
            (None, None) => true,
            _ => false,
        },
    decreases ts@.len() - pos, 2nat,
{
    if pos >= ts.len() {
        return None;
    }
    let ghost t = tokens_view(ts@);
    match p_atom(ts, pos) {
        None => None,
        Some((a, n)) => {
            if !(pos < n && n < ts.len()) {
                return None;
            }
            assert(t[n as int] == token_view(ts@[n as int]));
            let start = a.pos.0;
            match &ts[n].0 {
                TokenKind::LBRACE => match p_values_until(ts, n + 1, &TokenKind::RBRACE) {
                    Some((fs, m)) => {
                        assert(t[m as int] == token_view(ts@[m as int]));
                        let end = ts[m].2;
                        Some(
                            (
                                Value { kind: ValueKind::Option(Box::new(a), fs), pos: (start, end) },
                                m + 1,
                            ),
                        )
                    },
                    None => None,
                },
                TokenKind::ENVOP(k) => {
                    let op = EnvUpdateOp { kind: *k, pos: (ts[n].1, ts[n].2) };
                    match p_atom(ts, n + 1) {
                        Some((b, m)) => {
                            let end = b.pos.1;
                            Some(
                                (
                                    Value {
                                        kind: ValueKind::EnvBinding(Box::new(a), op, Box::new(b)),
                                        pos: (start, end),
                                    },
                                    m,
                                ),
                            )
                        },
                        None => None,
                    }
                },
                _ => Some((a, n)),
            }
        },
    }
}

fn p_prefix(ts: &Vec<Token>, pos: usize) -> (r: Option<(Value, usize)>)
    ensures
        match (r, prefix(tokens_view(ts@), pos as int)) {
            (Some((v, n)), Some((sv, sn))) => value_model(v) == sv && n == sn && pos < n
                <= ts@.len(),
            (None, None) => true,
            _ => false,
        },
    decreases ts@.len() - pos, 3nat,
{
    if pos >= ts.len() {
        return None;
    }
    let ghost t = tokens_view(ts@);
    assert(t[pos as int] == token_view(ts@[pos as int]));
    match &ts[pos].0 {
        TokenKind::PFXOP(k) => {
            let op = PfxOp { kind: *k, pos: (ts[pos].1, ts[pos].2) };
            match p_prefix(ts, pos + 1) {
                Some((v, n)) => {
                    let end = v.pos.1;
                    Some((Value { kind: ValueKind::PfxOp(op, Box::new(v)), pos: (op.pos.0, end) }, n))
                },
                None => None,
            }
        },
        _ => p_postfix(ts, pos),
    }
}

fn p_relational(ts: &Vec<Token>, pos: usize) -> (r: Option<(Value, usize)>)
    ensures
        match (r, relational(tokens_view(ts@), pos as int)) {
            (Some((v, n)), Some((sv, sn))) => value_model(v) == sv && n == sn && pos < n
                <= ts@.len(),
            (None, None) => true,
            _ => false,
        },
    decreases ts@.len() - pos, 4nat,
{
    if pos >= ts.len() {
        return None;
    }
    let ghost t = tokens_view(ts@);
    assert(t[pos as int] == token_view(ts@[pos as int]));
    match &ts[pos].0 {
        TokenKind::RELOP(k) => {
            let op = RelOp { kind: *k, pos: (ts[pos].1, ts[pos].2) };
            match p_prefix(ts, pos + 1) {
                Some((v, n)) => {
                    let end = v.pos.1;
                    Some(
                        (
                            Value {
                                kind: ValueKind::PrefixRelOp(op, Box::new(v)),
                                pos: (op.pos.0, end),
                            },
                            n,
                        ),
                    )
                },
                None => None,
            }
        },
        _ => match p_prefix(ts, pos) {
            Some((l, n)) => {
                if !(pos < n && n < ts.len()) {
                    return None;
                }
                assert(t[n as int] == token_view(ts@[n as int]));
                match &ts[n].0 {
                    TokenKind::RELOP(k) => {
                        let op = RelOp { kind: *k, pos: (ts[n].1, ts[n].2) };
                        let start = l.pos.0;
                        match p_prefix(ts, n + 1) {
                            Some((r, m)) => {
                                let end = r.pos.1;
                                Some(
                                    (
                                        Value {
                                            kind: ValueKind::RelOp(op, Box::new(l), Box::new(r)),
                                            pos: (start, end),
                                        },
                                        m,
                                    ),
                                )
                            },
                            None => None,
                        }
                    },
                    _ => Some((l, n)),
                }
            },
            None => None,
        },
    }
}

fn logop_kind(k: &TokenKind) -> (r: Option<LogOpKind>)
    ensures
        r == logop_of(k@),
{
    match k {
        TokenKind::AND => Some(LogOpKind::And),
        TokenKind::OR => Some(LogOpKind::Or),
        _ => None,
    }
}

fn p_value(ts: &Vec<Token>, pos: usize) -> (r: Option<(Value, usize)>)
    ensures
        match (r, value(tokens_view(ts@), pos as int)) {
            (Some((v, n)), Some((sv, sn))) => value_model(v) == sv && n == sn && pos < n
                <= ts@.len(),
            (None, None) => true,
            _ => false,
        },
    decreases ts@.len() - pos, 5nat,
{
    if pos >= ts.len() {
        return None;
    }
    let ghost t = tokens_view(ts@);
    let (mut left, mut p) = match p_relational(ts, pos) {
        Some(x) => x,
        None => {
            return None;
        },
    };
    loop
        invariant
            pos < p <= ts@.len(),
            t == tokens_view(ts@),
            logical_rest(t, p as int, value_model(left)) == value(t, pos as int),
        decreases ts@.len() - p,
    {
        if p >= ts.len() {
            return None;
        }
        assert(t[p as int] == token_view(ts@[p as int]));
        match logop_kind(&ts[p].0) {
            Some(k) => {
                let op = LogOp { kind: k, pos: (ts[p].1, ts[p].2) };
                match p_relational(ts, p + 1) {
                    Some((r, m)) => {
                        let start = left.pos.0;
                        let end = r.pos.1;
                        left = Value {
                            kind: ValueKind::LogOp(op, Box::new(left), Box::new(r)),
                            pos: (start, end),
                        };
                        p = m;
                    },
                    None => {
                        return None;
                    },
                }
            },
            None => {
                return Some((left, p));
            },
        }
    }
}

#[verifier::rlimit(40)]
fn p_item(ts: &Vec<Token>, pos: usize) -> (r: Option<(OpamFileItem, usize)>)
    ensures
        match (r, item(tokens_view(ts@), pos as int)) {
            (Some((it, n)), Some((sit, sn))) => item_model(it) == sit && n == sn && pos < n
                <= ts@.len(),
            (None, None) => true,
            _ => false,
        },
    decreases ts@.len() - pos, 1nat,
{
    if pos >= ts.len() {
        return None;
    }
    let ghost t = tokens_view(ts@);
    assert(t[pos as int] == token_view(ts@[pos as int]));
    let key = match &ts[pos].0 {
        TokenKind::IDENT(k) => k.clone(),
        _ => {
            return None;
        },
    };
    if pos + 1 >= ts.len() {
        return None;
    }
    assert(t[pos + 1] == token_view(ts@[pos + 1]));
    match &ts[pos + 1].0 {
        TokenKind::COLON => match p_value(ts, pos + 2) {
            Some((v, n)) => {
                let sp = (ts[pos].1, v.pos.1);
                Some((OpamFileItem::Variable(sp, key, v), n))
            },
            None => None,
        },
        TokenKind::STRING(name) => {
            if pos + 2 < ts.len() {
                assert(t[pos + 2] == token_view(ts@[pos + 2]));
                match &ts[pos + 2].0 {
                    TokenKind::LBRACE => p_section(ts, pos, key, Some(name.clone()), pos + 3),
                    _ => None,
                }
            } else {
                None
            }
        },
        TokenKind::LBRACE => p_section(ts, pos, key, None, pos + 2),
        _ => None,
    }
}

fn p_section(
    ts: &Vec<Token>,
    start: usize,
    kind: String,
    name: Option<String>,
    body: usize,
) -> (r: Option<(OpamFileItem, usize)>)
    ensures
        match (
            r,
            section(
                tokens_view(ts@),
                start as int,
                kind@,
                match name {
                    Some(n) => Some(n@),
                    None => None,
                },
                body as int,
            ),
        ) {
            (Some((it, n)), Some((sit, sn))) => item_model(it) == sit && n == sn && start < n
                <= ts@.len(),
            (None, None) => true,
            _ => false,
        },
    decreases ts@.len() - start, 0nat,
{
    if !(start < body && body <= ts.len()) {
        return None;
    }
    let ghost t = tokens_view(ts@);
    match p_items_until(ts, body, &TokenKind::RBRACE) {
        Some((its, n)) => {
            assert(t[start as int] == token_view(ts@[start as int]));
            assert(t[n as int] == token_view(ts@[n as int]));
            let sp = (ts[start].1, ts[n].2);
            let sec = OpamFileSection { section_kind: kind, section_name: name, section_item: its };
            Some((OpamFileItem::Section(sp, sec), n + 1))
        },
        None => None,
    }
}

fn p_items_until(ts: &Vec<Token>, pos: usize, closer: &TokenKind) -> (r: Option<
    (Vec<OpamFileItem>, usize),
>)
    requires
        is_closer(closer@),
    ensures
        match (r, items_until(tokens_view(ts@), pos as int, closer@, seq![])) {
            (Some((its, n)), Some((sits, sn))) => items_model(its@, its@.len() as int) == sits
                && n == sn && pos <= n < ts@.len(),
            (None, None) => true,
            _ => false,
        },
    decreases ts@.len() - pos, 2nat,
{
    let ghost t = tokens_view(ts@);
    let mut acc: Vec<OpamFileItem> = Vec::new();
    let mut p = pos;
    loop
        invariant
            pos <= p,
            t == tokens_view(ts@),
            is_closer(closer@),
            items_until(t, p as int, closer@, items_model(acc@, acc@.len() as int))
                == items_until(t, pos as int, closer@, seq![]),
        decreases ts@.len() - p,
    {
        if p >= ts.len() {
            return None;
        }
        assert(t[p as int] == token_view(ts@[p as int]));
        if same_closer(&ts[p].0, closer) {
            return Some((acc, p));
        }
        match p_item(ts, p) {
            Some((it, n)) => {
                proof {
                    lemma_items_model_push(acc@, it);
                }
                acc.push(it);
                p = n;
            },
            None => {
                return None;
            },
        }
    }
}

/// Builds the syntax tree of a whole token sequence, up to its end marker;
/// `None` where the tokens do not form a file.
pub fn parse_tokens(ts: &Vec<Token>) -> (r: Option<OpamFile>)
    ensures
        match (r, file_items(tokens_view(ts@))) {
            (Some(f), Some(its)) => items_model(f.file_contents@, f.file_contents@.len() as int)
                == its,
            (None, None) => true,
            _ => false,
        },
{
    match p_items_until(ts, 0, &TokenKind::EOF) {
        Some((its, _)) => Some(OpamFile { file_contents: its }),
        None => None,
    }
}

} // verus!
