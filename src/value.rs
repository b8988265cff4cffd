use vstd::prelude::*;

use crate::lexer::{chars_of, string_of_chars};

verus! {

broadcast use vstd::std_specs::vec::axiom_vec_decreases_to_view, vstd::seq::axiom_seq_index_decreases;

#[derive(Debug, PartialEq, Eq, Ord, PartialOrd, Hash)]
pub struct OpamFile {
    pub file_contents: Vec<OpamFileItem>,
}

#[derive(Debug, PartialEq, Eq, Ord, PartialOrd, Hash)]
pub enum OpamFileItem {
    Section(Pos, OpamFileSection),
    Variable(Pos, String, Value),
}

#[derive(Debug, PartialEq, Eq, Ord, PartialOrd, Hash)]
pub struct OpamFileSection {
    pub section_kind: String,
    pub section_name: Option<String>,
    pub section_item: Vec<OpamFileItem>,
}

#[derive(Debug, PartialEq, Eq, Ord, PartialOrd, Hash)]
pub struct Value {
    pub kind: ValueKind,
    pub pos: Pos,
}

#[derive(Debug, PartialEq, Eq, Ord, PartialOrd, Hash)]
pub enum ValueKind {
    Bool(bool),
    Int(isize),
    String(String),
    RelOp(RelOp, Box<Value>, Box<Value>),
    PrefixRelOp(RelOp, Box<Value>),
    LogOp(LogOp, Box<Value>, Box<Value>),
    PfxOp(PfxOp, Box<Value>),
    Ident(String),
    List(Vec<Value>),
    Group(Vec<Value>),
    Option(Box<Value>, Vec<Value>),
    EnvBinding(Box<Value>, EnvUpdateOp, Box<Value>),
}

#[derive(Debug, Clone, Copy, PartialEq, Eq, Ord, PartialOrd, Hash)]
pub struct RelOp {
    pub kind: RelOpKind,
    pub pos: Pos,
}

#[derive(Debug, Clone, Copy, PartialEq, Eq, Ord, PartialOrd, Hash)]
pub struct LogOp {
    pub kind: LogOpKind,
    pub pos: Pos,
}

#[derive(Debug, Clone, Copy, PartialEq, Eq, Ord, PartialOrd, Hash)]
pub struct PfxOp {
    pub kind: PfxOpKind,
    pub pos: Pos,
}

#[derive(Debug, Clone, Copy, PartialEq, Eq, Ord, PartialOrd, Hash)]
pub struct EnvUpdateOp {
    pub kind: EnvUpdateOpKind,
    pub pos: Pos,
}

/// A half-open span `(start, end)` of character offsets into the source.
pub type Pos = (usize, usize);

#[derive(Debug, Clone, Copy, PartialEq, Eq, Ord, PartialOrd, Hash)]
pub enum RelOpKind {
    /// `=`
    Eq,
    /// `!=`
    Neq,
    /// `>=`
    Geq,
    /// `>`
    Gt,
    /// `<=`
    Leq,
    /// `<`
    Lt,
    /// `~`
    Sem,
}

#[derive(Debug, Clone, Copy, PartialEq, Eq, Ord, PartialOrd, Hash)]
pub enum LogOpKind {
    /// `&`
    And,
    /// `|`
    Or,
}

#[derive(Debug, Clone, Copy, PartialEq, Eq, Ord, PartialOrd, Hash)]
pub enum PfxOpKind {
    /// `!`
    Not,
    /// `?`
    Defined,
}

#[derive(Debug, Clone, Copy, PartialEq, Eq, Ord, PartialOrd, Hash)]
pub enum EnvUpdateOpKind {
    /// `+=`
    PlusEq,
    /// `=+`
    EqPlus,
    /// `:=`
    ColonEq,
    /// `=:`
    EqColon,
    /// `=+=`
    EqPlusEq,
}

pub open spec fn relop_text(k: RelOpKind) -> Seq<char> {
    match k {
        RelOpKind::Eq => seq!['='],
        RelOpKind::Neq => seq!['!', '='],
        RelOpKind::Geq => seq!['>', '='],
        RelOpKind::Gt => seq!['>'],
        RelOpKind::Leq => seq!['<', '='],
        RelOpKind::Lt => seq!['<'],
        RelOpKind::Sem => seq!['~'],
    }
}

pub open spec fn logop_text(k: LogOpKind) -> Seq<char> {
    match k {
        LogOpKind::And => seq!['&'],
        LogOpKind::Or => seq!['|'],
    }
}

pub open spec fn pfxop_text(k: PfxOpKind) -> Seq<char> {
    match k {
        PfxOpKind::Not => seq!['!'],
        PfxOpKind::Defined => seq!['?'],
    }
}

pub open spec fn envop_text(k: EnvUpdateOpKind) -> Seq<char> {
    match k {
        EnvUpdateOpKind::PlusEq => seq!['+', '='],
        EnvUpdateOpKind::EqPlus => seq!['=', '+'],
        EnvUpdateOpKind::ColonEq => seq![':', '='],
        EnvUpdateOpKind::EqColon => seq!['=', ':'],
        EnvUpdateOpKind::EqPlusEq => seq!['=', '+', '='],
    }
}

pub open spec fn digit_char(d: int) -> char {
    ((d + 48) as u8) as char
}

/// The decimal digits of a natural number.
pub open spec fn nat_text(n: nat) -> Seq<char>
    decreases n,
{
    if n < 10 {
        seq![digit_char(n as int)]
    } else {
        nat_text(n / 10).push(digit_char((n % 10) as int))
    }
}

/// The decimal text of an integer, with a leading `-` when it is negative.
pub open spec fn int_text(i: int) -> Seq<char> {
    if i < 0 {
        seq!['-'] + nat_text((-i) as nat)
    } else {
        nat_text(i as nat)
    }
}

pub open spec fn bool_text(b: bool) -> Seq<char> {
    if b {
        seq!['t', 'r', 'u', 'e']
    } else {
        seq!['f', 'a', 'l', 's', 'e']
    }
}

/// The text of a string literal as Rust's `Debug` writes it: quoted, with
/// quotes, backslashes and control characters escaped.
pub uninterp spec fn debug_quoted(s: Seq<char>) -> Seq<char>;

/// Relies on `<str as Debug>::fmt` through `format!("{:?}")`: the quoted text
/// depends on the characters alone.
#[verifier::external_body]
fn quote_debug(s: &String) -> (r: String)
    ensures
        r@ == debug_quoted(s@),
{
    format!("{:?}", s)
}

/// The printed form of a value.
pub open spec fn value_text(v: Value) -> Seq<char>
    decreases v, 0nat,
{
    match v.kind {
        ValueKind::Bool(b) => bool_text(b),
        ValueKind::Int(i) => int_text(i as int),
        ValueKind::String(s) => debug_quoted(s@),
        ValueKind::Ident(s) => s@,
        ValueKind::List(l) => seq!['['] + values_text(l@, l@.len() as int) + seq![']'],
        ValueKind::Group(l) => seq!['('] + values_text(l@, l@.len() as int) + seq![')'],
        ValueKind::Option(b, l) => values_text(l@, l@.len() as int) + seq![' ', '{'] + value_text(
            *b,
        ) + seq!['}'],
        ValueKind::RelOp(op, l, r) => value_text(*l) + seq![' '] + relop_text(op.kind) + seq![' ']
            + value_text(*r),
        ValueKind::PrefixRelOp(op, r) => relop_text(op.kind) + seq![' '] + value_text(*r),
        ValueKind::LogOp(op, l, r) => value_text(*l) + seq![' '] + logop_text(op.kind) + seq![' ']
            + value_text(*r),
        ValueKind::PfxOp(op, r) => pfxop_text(op.kind) + seq![' '] + value_text(*r),
        ValueKind::EnvBinding(l, op, r) => value_text(*l) + seq![' '] + envop_text(op.kind) + seq![
            ' ',
        ] + value_text(*r),
    }
}

/// The first `n` values of `vs`, each printed and followed by a space.
pub open spec fn values_text(vs: Seq<Value>, n: int) -> Seq<char>
    decreases vs, n,
{
    if n <= 0 || n > vs.len() {
        seq![]
    } else {
        values_text(vs, n - 1) + value_text(vs[n - 1]) + seq![' ']
    }
}

/// The printed line of an item: `key : value`, or `kind name {items}`.
pub open spec fn item_text(it: OpamFileItem) -> Seq<char>
    decreases it, 0nat,
{
    match it {
        OpamFileItem::Section(_, sec) => {
            let name = match sec.section_name {
                Some(n) => n@,
                None => seq![],
            };
            sec.section_kind@ + seq![' '] + name + seq![' ', '{'] + items_text(
                sec.section_item@,
                sec.section_item@.len() as int,
            ) + seq!['}', '\n']
        },
        OpamFileItem::Variable(_, key, v) => key@ + seq![' ', ':', ' '] + value_text(v) + seq!['\n'],
    }
}

/// The printed lines of the first `n` items of `its`.
pub open spec fn items_text(its: Seq<OpamFileItem>, n: int) -> Seq<char>
    decreases its, n,
{
    if n <= 0 || n > its.len() {
        seq![]
    } else {
        items_text(its, n - 1) + item_text(its[n - 1])
    }
}

/// The printed form of a whole file: one line per top-level item.
pub open spec fn file_text(f: OpamFile) -> Seq<char> {
    items_text(f.file_contents@, f.file_contents@.len() as int)
}

fn push_text(out: &mut Vec<char>, t: &[char])
    ensures
        final(out)@ == old(out)@ + t@,
{
    let mut i: usize = 0;
    while i < t.len()
        invariant
            i <= t@.len(),
            out@ == old(out)@ + t@.subrange(0, i as int),
        decreases t@.len() - i,
    {
        proof {
            assert(t@.subrange(0, i + 1) =~= t@.subrange(0, i as int).push(t@[i as int]));
        }
        out.push(t[i]);
        i += 1;
    }
    assert(t@.subrange(0, i as int) =~= t@);
}

fn push_string(out: &mut Vec<char>, s: &String)
    ensures
        final(out)@ == old(out)@ + s@,
{
    let cs = chars_of(s.as_str());
    push_text(out, cs.as_slice());
}

fn push_nat(out: &mut Vec<char>, n: u128)
    ensures
        final(out)@ == old(out)@ + nat_text(n as nat),
    decreases n,
{
    if n >= 10 {
        push_nat(out, n / 10);
    }
    out.push(((n % 10) as u8 + 48) as char);
    proof {
        assert(((n % 10) as u8 + 48) as u8 == ((n % 10) as int + 48) as u8);
    }
}

fn push_int(out: &mut Vec<char>, i: isize)
    ensures
        final(out)@ == old(out)@ + int_text(i as int),
{
    if i < 0 {
        out.push('-');
        let m: u128 = (-(i as i128)) as u128;
        push_nat(out, m);
        assert(final(out)@ =~= old(out)@ + int_text(i as int));
    } else {
        push_nat(out, i as u128);
    }
}

fn push_relop(out: &mut Vec<char>, k: RelOpKind)
    ensures
        final(out)@ == old(out)@ + relop_text(k),
{
    let t: &[char] = match k {
        RelOpKind::Eq => &['='],
        RelOpKind::Neq => &['!', '='],
        RelOpKind::Geq => &['>', '='],
        RelOpKind::Gt => &['>'],
        RelOpKind::Leq => &['<', '='],
        RelOpKind::Lt => &['<'],
        RelOpKind::Sem => &['~'],
    };
    push_text(out, t);
}

fn push_logop(out: &mut Vec<char>, k: LogOpKind)
    ensures
        final(out)@ == old(out)@ + logop_text(k),
{
    let t: &[char] = match k {
        LogOpKind::And => &['&'],
        LogOpKind::Or => &['|'],
    };
    push_text(out, t);
}

fn push_pfxop(out: &mut Vec<char>, k: PfxOpKind)
    ensures
        final(out)@ == old(out)@ + pfxop_text(k),
{
    let t: &[char] = match k {
        PfxOpKind::Not => &['!'],
        PfxOpKind::Defined => &['?'],
    };
    push_text(out, t);
}

fn push_envop(out: &mut Vec<char>, k: EnvUpdateOpKind)
    ensures
        final(out)@ == old(out)@ + envop_text(k),
{
    let t: &[char] = match k {
        EnvUpdateOpKind::PlusEq => &['+', '='],
        EnvUpdateOpKind::EqPlus => &['=', '+'],
        EnvUpdateOpKind::ColonEq => &[':', '='],
        EnvUpdateOpKind::EqColon => &['=', ':'],
        EnvUpdateOpKind::EqPlusEq => &['=', '+', '='],
    };
    push_text(out, t);
}

fn push_values(out: &mut Vec<char>, vs: &Vec<Value>)
    ensures
        final(out)@ == old(out)@ + values_text(vs@, vs@.len() as int),
    decreases vs, 0nat,
{
    let mut i: usize = 0;
    while i < vs.len()
        invariant
            i <= vs@.len(),
            out@ == old(out)@ + values_text(vs@, i as int),
        decreases vs@.len() - i,
    {
        let ghost before = out@;
        assert(decreases_to!(vs => vs[i as int]));
        push_value(out, &vs[i]);
        out.push(' ');
        i += 1;
        assert(out@ =~= old(out)@ + values_text(vs@, i as int));
    }
}

fn push_value(out: &mut Vec<char>, v: &Value)
    ensures
        final(out)@ == old(out)@ + value_text(*v),
    decreases v, 0nat,
{
    match &v.kind {
        ValueKind::Bool(b) => {
            let t: &[char] = if *b {
                &['t', 'r', 'u', 'e']
            } else {
                &['f', 'a', 'l', 's', 'e']
            };
            push_text(out, t);
        },
        ValueKind::Int(i) => push_int(out, *i),
        ValueKind::String(s) => {
            let q = quote_debug(s);
            push_string(out, &q);
        },
        ValueKind::Ident(s) => push_string(out, s),
        ValueKind::List(l) => {
            out.push('[');
            push_values(out, l);
            out.push(']');
            assert(final(out)@ =~= old(out)@ + value_text(*v));
        },
        ValueKind::Group(l) => {
            out.push('(');
            push_values(out, l);
            out.push(')');
            assert(final(out)@ =~= old(out)@ + value_text(*v));
        },
        ValueKind::Option(b, l) => {
            push_values(out, l);
            out.push(' ');
            out.push('{');
            push_value(out, b);
            out.push('}');
            assert(final(out)@ =~= old(out)@ + value_text(*v));
        },
        ValueKind::RelOp(op, l, r) => {
            push_value(out, l);
            out.push(' ');
            push_relop(out, op.kind);
            out.push(' ');
            push_value(out, r);
            assert(final(out)@ =~= old(out)@ + value_text(*v));
        },
        ValueKind::PrefixRelOp(op, r) => {
            push_relop(out, op.kind);
            out.push(' ');
            push_value(out, r);
            assert(final(out)@ =~= old(out)@ + value_text(*v));
        },
        ValueKind::LogOp(op, l, r) => {
            push_value(out, l);
            out.push(' ');
            push_logop(out, op.kind);
            out.push(' ');
            push_value(out, r);
            assert(final(out)@ =~= old(out)@ + value_text(*v));
        },
        ValueKind::PfxOp(op, r) => {
            push_pfxop(out, op.kind);
            out.push(' ');
            push_value(out, r);
            assert(final(out)@ =~= old(out)@ + value_text(*v));
        },
        ValueKind::EnvBinding(l, op, r) => {
            push_value(out, l);
            out.push(' ');
            push_envop(out, op.kind);
            out.push(' ');
            push_value(out, r);
            assert(final(out)@ =~= old(out)@ + value_text(*v));
        },
    }
}

fn push_items(out: &mut Vec<char>, its: &Vec<OpamFileItem>)
    ensures
        final(out)@ == old(out)@ + items_text(its@, its@.len() as int),
    decreases its, 0nat,
{
    let mut i: usize = 0;
    while i < its.len()
        invariant
            i <= its@.len(),
            out@ == old(out)@ + items_text(its@, i as int),
        decreases its@.len() - i,
    {
        assert(decreases_to!(its => its[i as int]));
        push_item(out, &its[i]);
        i += 1;
        assert(out@ =~= old(out)@ + items_text(its@, i as int));
    }
}

fn push_item(out: &mut Vec<char>, it: &OpamFileItem)
    ensures
        final(out)@ == old(out)@ + item_text(*it),
    decreases it, 0nat,
{
    match it {
        OpamFileItem::Section(_, sec) => {
            push_string(out, &sec.section_kind);
            out.push(' ');
            match &sec.section_name {
                Some(n) => push_string(out, n),
                None => {},
            }
            out.push(' ');
            out.push('{');
            push_items(out, &sec.section_item);
            out.push('}');
            out.push('\n');
            assert(final(out)@ =~= old(out)@ + item_text(*it));
        },
        OpamFileItem::Variable(_, key, v) => {
            push_string(out, key);
            out.push(' ');
            out.push(':');
            out.push(' ');
            push_value(out, v);
            out.push('\n');
            assert(final(out)@ =~= old(out)@ + item_text(*it));
        },
    }
}

/// Prints a file: one line per top-level item, each ended by a newline.
/// Sections print as `kind name {items}`, variables as `key : value`.
pub fn format_opam_file(input: &OpamFile) -> (r: String)
    ensures
        r@ == file_text(*input),
{
    let mut out: Vec<char> = Vec::new();
    push_items(&mut out, &input.file_contents);
    assert(out@ =~= file_text(*input));
    string_of_chars(&out)
}

} // verus!
