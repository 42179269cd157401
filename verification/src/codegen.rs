//! Rendering of single IR values as target-language expressions.
//!
//! Every function here is a pure text producer: one IR operand, rvalue,
//! lvalue or literal in, one expression of the target language out. The
//! exact text of each rendering is pinned by a specification function, so
//! the output for a given value is the same on every run.
//!
//! Naming conventions (these must stay bit-stable, both for reproducible
//! output and for the tests): arguments render as `a` plus a hexadecimal
//! index, named locals as `v` plus one, temporaries as `t` plus one, record
//! fields as `f` plus one; items render as `d` plus the hexadecimal local
//! index, `_`, and the hexadecimal module part; the return slot is `r` and
//! the reserved discriminant field of tagged records is `d`.

use vstd::prelude::*;

use crate::ir::{
    AggregateKind, BinOp, ItemId, Literal, Lvalue, Mutability, Operand, ProjectionElem, Rvalue,
    Statement, UnOp,
};

verus! {

/// The hexadecimal digit for a value below 16.
pub open spec fn spec_hex_digit(d: nat) -> char {
    if d == 0 {
        '0'
    } else if d == 1 {
        '1'
    } else if d == 2 {
        '2'
    } else if d == 3 {
        '3'
    } else if d == 4 {
        '4'
    } else if d == 5 {
        '5'
    } else if d == 6 {
        '6'
    } else if d == 7 {
        '7'
    } else if d == 8 {
        '8'
    } else if d == 9 {
        '9'
    } else if d == 10 {
        'a'
    } else if d == 11 {
        'b'
    } else if d == 12 {
        'c'
    } else if d == 13 {
        'd'
    } else if d == 14 {
        'e'
    } else {
        'f'
    }
}

/// The hexadecimal numeral for `n`, without leading zeros (a single `0` for
/// zero itself).
pub open spec fn spec_hex(n: nat) -> Seq<char>
    decreases n,
{
    if n < 16 {
        seq![spec_hex_digit(n)]
    } else {
        spec_hex(n / 16) + seq![spec_hex_digit(n % 16)]
    }
}

/// The decimal digit for a value below 10.
pub open spec fn spec_dec_digit(d: nat) -> char {
    if d == 0 {
        '0'
    } else if d == 1 {
        '1'
    } else if d == 2 {
        '2'
    } else if d == 3 {
        '3'
    } else if d == 4 {
        '4'
    } else if d == 5 {
        '5'
    } else if d == 6 {
        '6'
    } else if d == 7 {
        '7'
    } else if d == 8 {
        '8'
    } else {
        '9'
    }
}

/// The decimal numeral for `n`, without leading zeros.
pub open spec fn spec_dec(n: nat) -> Seq<char>
    decreases n,
{
    if n < 10 {
        seq![spec_dec_digit(n)]
    } else {
        spec_dec(n / 10) + seq![spec_dec_digit(n % 10)]
    }
}

fn hex_digit(d: u64) -> (r: &'static str)
    requires
        d < 16,
    ensures
        r@ == seq![spec_hex_digit(d as nat)],
{
    let s = match d {
        0 => "0",
        1 => "1",
        2 => "2",
        3 => "3",
        4 => "4",
        5 => "5",
        6 => "6",
        7 => "7",
        8 => "8",
        9 => "9",
        10 => "a",
        11 => "b",
        12 => "c",
        13 => "d",
        14 => "e",
        _ => "f",
    };
    proof {
        reveal_strlit("0");
        reveal_strlit("1");
        reveal_strlit("2");
        reveal_strlit("3");
        reveal_strlit("4");
        reveal_strlit("5");
        reveal_strlit("6");
        reveal_strlit("7");
        reveal_strlit("8");
        reveal_strlit("9");
        reveal_strlit("a");
        reveal_strlit("b");
        reveal_strlit("c");
        reveal_strlit("d");
        reveal_strlit("e");
        reveal_strlit("f");
        assert(s@ =~= seq![spec_hex_digit(d as nat)]);
    }
    s
}

/// Renders `n` as a hexadecimal numeral.
pub fn hex(n: u64) -> (r: String)
    ensures
        r@ == spec_hex(n as nat),
    decreases n,
{
    if n < 16 {
        hex_digit(n).to_owned()
    } else {
        let mut s = hex(n / 16);
        s.append(hex_digit(n % 16));
        proof {
            assert(s@ =~= spec_hex(n as nat));
        }
        s
    }
}

fn dec_digit(d: u64) -> (r: &'static str)
    requires
        d < 10,
    ensures
        r@ == seq![spec_dec_digit(d as nat)],
{
    let s = match d {
        0 => "0",
        1 => "1",
        2 => "2",
        3 => "3",
        4 => "4",
        5 => "5",
        6 => "6",
        7 => "7",
        8 => "8",
        _ => "9",
    };
    proof {
        reveal_strlit("0");
        reveal_strlit("1");
        reveal_strlit("2");
        reveal_strlit("3");
        reveal_strlit("4");
        reveal_strlit("5");
        reveal_strlit("6");
        reveal_strlit("7");
        reveal_strlit("8");
        reveal_strlit("9");
        assert(s@ =~= seq![spec_dec_digit(d as nat)]);
    }
    s
}

/// Renders `n` as a decimal numeral.
pub fn dec(n: u64) -> (r: String)
    ensures
        r@ == spec_dec(n as nat),
    decreases n,
{
    if n < 10 {
        dec_digit(n).to_owned()
    } else {
        let mut s = dec(n / 10);
        s.append(dec_digit(n % 10));
        proof {
            assert(s@ =~= spec_dec(n as nat));
        }
        s
    }
}

/// The name of the argument with index `i`.
pub open spec fn spec_arg_name(i: u32) -> Seq<char> {
    "a"@ + spec_hex(i as nat)
}

/// The name of the named local variable with index `i`.
pub open spec fn spec_var_name(i: u32) -> Seq<char> {
    "v"@ + spec_hex(i as nat)
}

/// The name of the temporary with index `i`.
pub open spec fn spec_tmp_name(i: u32) -> Seq<char> {
    "t"@ + spec_hex(i as nat)
}

/// The name of the record field with declared index `i`.
pub open spec fn spec_field_name(i: u32) -> Seq<char> {
    "f"@ + spec_hex(i as nat)
}

/// The name of the item `id`: its local index and its module part, both
/// hexadecimal.
pub open spec fn spec_item_name(id: ItemId) -> Seq<char> {
    "d"@ + spec_hex(id.index as nat) + "_"@ + spec_hex(id.krate as nat)
}

/// Renders the name of the argument with index `i`.
pub fn arg_name(i: u32) -> (r: String)
    ensures
        r@ == spec_arg_name(i),
{
    let mut s = "a".to_owned();
    s.append(hex(i as u64).as_str());
    proof {
        assert(s@ =~= spec_arg_name(i));
    }
    s
}

/// Renders the name of the named local variable with index `i`.
pub fn var_name(i: u32) -> (r: String)
    ensures
        r@ == spec_var_name(i),
{
    let mut s = "v".to_owned();
    s.append(hex(i as u64).as_str());
    proof {
        assert(s@ =~= spec_var_name(i));
    }
    s
}

/// Renders the name of the temporary with index `i`.
pub fn tmp_name(i: u32) -> (r: String)
    ensures
        r@ == spec_tmp_name(i),
{
    let mut s = "t".to_owned();
    s.append(hex(i as u64).as_str());
    proof {
        assert(s@ =~= spec_tmp_name(i));
    }
    s
}

/// Renders the name of the record field with declared index `i`.
pub fn field_name(i: u32) -> (r: String)
    ensures
        r@ == spec_field_name(i),
{
    let mut s = "f".to_owned();
    s.append(hex(i as u64).as_str());
    proof {
        assert(s@ =~= spec_field_name(i));
    }
    s
}

/// Renders the name of the item `id`.
pub fn item_name(id: ItemId) -> (r: String)
    ensures
        r@ == spec_item_name(id),
{
    let mut s = "d".to_owned();
    s.append(hex(id.index as u64).as_str());
    s.append("_");
    s.append(hex(id.krate as u64).as_str());
    proof {
        assert(s@ =~= spec_item_name(id));
    }
    s
}


/// How one character of a quoted string literal is escaped: the escapes of
/// the target's string grammar for the common control characters, quote,
/// backslash; printable seven-bit characters stand for themselves; everything
/// else is a braced hexadecimal escape.
pub open spec fn spec_escape_char(c: char) -> Seq<char> {
    if c == '\t' {
        "\\t"@
    } else if c == '\r' {
        "\\r"@
    } else if c == '\n' {
        "\\n"@
    } else if c == '\\' {
        "\\\\"@
    } else if c == '\'' {
        "\\'"@
    } else if c == '"' {
        "\\\""@
    } else if 0x20 <= c as nat && c as nat <= 0x7e {
        seq![c]
    } else {
        "\\u{"@ + spec_hex(c as nat) + "}"@
    }
}

/// The escaped form of a whole string.
pub open spec fn spec_escape(s: Seq<char>) -> Seq<char>
    decreases s.len(),
{
    if s.len() == 0 {
        Seq::empty()
    } else {
        spec_escape(s.drop_last()) + spec_escape_char(s.last())
    }
}

fn escape_char(c: char, lit: &str, out: &mut String)
    requires
        lit@ == seq![c],
    ensures
        final(out)@ == old(out)@ + spec_escape_char(c),
{
    let n = c as u32;
    if c == '\t' {
        out.append("\\t");
    } else if c == '\r' {
        out.append("\\r");
    } else if c == '\n' {
        out.append("\\n");
    } else if c == '\\' {
        out.append("\\\\");
    } else if c == '\'' {
        out.append("\\'");
    } else if c == '"' {
        out.append("\\\"");
    } else if 0x20 <= n && n <= 0x7e {
        out.append(lit);
        proof {
            assert(final(out)@ =~= old(out)@ + spec_escape_char(c));
        }
    } else {
        out.append("\\u{");
        out.append(hex(n as u64).as_str());
        out.append("}");
        proof {
            assert(final(out)@ =~= old(out)@ + spec_escape_char(c));
        }
    }
}

/// Escapes `s` for a quoted string literal of the target grammar.
pub fn escape_str(s: &str, out: &mut String)
    ensures
        final(out)@ == old(out)@ + spec_escape(s@),
{
    let n = s.unicode_len();
    let mut i: usize = 0;
    while i < n
        invariant
            n == s@.len(),
            i <= n,
            out@ == old(out)@ + spec_escape(s@.subrange(0, i as int)),
        decreases n - i,
    {
        let c = s.get_char(i);
        let lit = s.substring_char(i, i + 1);
        proof {
            assert(lit@ =~= seq![c]);
        }
        escape_char(c, lit, out);
        proof {
            let pre = s@.subrange(0, i as int);
            let cur = s@.subrange(0, i + 1 as int);
            assert(cur.drop_last() =~= pre);
            assert(cur.last() == c);
            assert(out@ =~= old(out)@ + spec_escape(cur));
        }
        i = i + 1;
    }
    proof {
        assert(s@.subrange(0, s@.len() as int) =~= s@);
    }
}


/// The target operator token for a binary operator. The mapping is total;
/// integer division and remainder map to the target's own operators even
/// though the target's numeric type need not share the source's truncation
/// and overflow behaviour. That fidelity gap is accepted, not worked around.
pub open spec fn spec_binop(op: BinOp) -> Seq<char> {
    match op {
        BinOp::Add => "+"@,
        BinOp::Sub => "-"@,
        BinOp::Mul => "*"@,
        BinOp::Div => "/"@,
        BinOp::Rem => "%"@,
        BinOp::BitXor => "^"@,
        BinOp::BitAnd => "&"@,
        BinOp::BitOr => "|"@,
        BinOp::Shl => "<<"@,
        BinOp::Shr => ">>"@,
        BinOp::Eq => "==="@,
        BinOp::Lt => "<"@,
        BinOp::Le => "<="@,
        BinOp::Ne => "!=="@,
        BinOp::Ge => ">="@,
        BinOp::Gt => ">"@,
    }
}

/// The target operator token for a unary operator.
pub open spec fn spec_unop(op: UnOp) -> Seq<char> {
    match op {
        UnOp::Not => "!"@,
        UnOp::Neg => "-"@,
    }
}

/// Renders a binary operator as its target token.
pub fn binop_to_js(op: BinOp) -> (r: &'static str)
    ensures
        r@ == spec_binop(op),
{
    match op {
        BinOp::Add => "+",
        BinOp::Sub => "-",
        BinOp::Mul => "*",
        BinOp::Div => "/",
        BinOp::Rem => "%",
        BinOp::BitXor => "^",
        BinOp::BitAnd => "&",
        BinOp::BitOr => "|",
        BinOp::Shl => "<<",
        BinOp::Shr => ">>",
        BinOp::Eq => "===",
        BinOp::Lt => "<",
        BinOp::Le => "<=",
        BinOp::Ne => "!==",
        BinOp::Ge => ">=",
        BinOp::Gt => ">",
    }
}

/// Renders a unary operator as its target token.
pub fn unop_to_js(op: UnOp) -> (r: &'static str)
    ensures
        r@ == spec_unop(op),
{
    match op {
        UnOp::Not => "!",
        UnOp::Neg => "-",
    }
}

/// The read form of a storage location: base locations render to their
/// class name, a dereference reads through the capsule's `get` accessor, a
/// field projection selects the derived field name, an index projection
/// renders as a subscript.
pub open spec fn spec_lvalue_get(lv: Lvalue) -> Seq<char>
    decreases lv,
{
    match lv {
        Lvalue::Var(i) => spec_var_name(i),
        Lvalue::Temp(i) => spec_tmp_name(i),
        Lvalue::Arg(i) => spec_arg_name(i),
        Lvalue::Static(id) => spec_item_name(id),
        Lvalue::ReturnPointer => "r"@,
        Lvalue::Projection(p) => match p.elem {
            ProjectionElem::Deref => spec_lvalue_get(p.base) + ".get()"@,
            ProjectionElem::Field(f) => spec_lvalue_get(p.base) + "."@ + spec_field_name(f),
            ProjectionElem::Index(idx) => spec_lvalue_get(p.base) + "["@ + spec_operand(idx)
                + "]"@,
        },
    }
}

/// The write form of a storage location, storing the expression `val`: a
/// dereference writes through the capsule's `set` accessor; every other
/// location is assigned with the target's assignment operator.
pub open spec fn spec_lvalue_set(lv: Lvalue, val: Seq<char>) -> Seq<char>
    decreases lv,
{
    match lv {
        Lvalue::Projection(p) => match p.elem {
            ProjectionElem::Deref => spec_lvalue_get(p.base) + ".set("@ + val + ")"@,
            ProjectionElem::Field(f) => spec_lvalue_get(p.base) + "."@ + spec_field_name(f)
                + "="@ + val,
            ProjectionElem::Index(idx) => spec_lvalue_get(p.base) + "["@ + spec_operand(idx)
                + "]="@ + val,
        },
        _ => spec_lvalue_get(lv) + "="@ + val,
    }
}

/// The rendering of a literal: items by their derived name, integers and
/// booleans as numerals and keywords, strings quoted and escaped — unless
/// they carry the raw-emit marker, in which case the text is spliced
/// verbatim.
pub open spec fn spec_literal(lit: Literal) -> Seq<char> {
    match lit {
        Literal::Item(id) => spec_item_name(id),
        Literal::Integer(v) => spec_dec(v as nat),
        Literal::Bool(b) => if b {
            "true"@
        } else {
            "false"@
        },
        Literal::Str { text, raw } => if raw {
            text@
        } else {
            "\""@ + spec_escape(text@) + "\""@
        },
    }
}

/// The rendering of an operand: a read of a location, or a literal.
pub open spec fn spec_operand(op: Operand) -> Seq<char>
    decreases op,
{
    match op {
        Operand::Consume(lv) => spec_lvalue_get(lv),
        Operand::Constant(lit) => spec_literal(lit),
    }
}

/// An argument list: every operand followed by a comma.
pub open spec fn spec_args(args: Seq<Operand>) -> Seq<char>
    decreases args,
{
    if args.len() == 0 {
        Seq::empty()
    } else {
        spec_args(args.drop_last()) + spec_operand(args.last()) + ","@
    }
}

/// The fields of a tagged-variant record: the declared field indices zipped
/// with the operands, each rendered as `,<field name>:<operand>`.
pub open spec fn spec_variant_fields(fields: Seq<u32>, args: Seq<Operand>) -> Seq<char>
    decreases args,
{
    let n = if fields.len() <= args.len() {
        fields.len() as int
    } else {
        args.len() as int
    };
    if n == 0 {
        Seq::empty()
    } else {
        spec_variant_fields(fields.take(n - 1), args.take(n - 1)) + ","@ + spec_field_name(
            fields[n - 1],
        ) + ":"@ + spec_operand(args[n - 1])
    }
}

/// The capsule object that emulates a fresh heap cell: a get/set closure
/// pair over private backing storage.
pub open spec fn spec_box_text() -> Seq<char> {
    "new function(){this.get=function(){return this.x};this.set=function(x){this.x=x}}"@
}

/// The rendering of a value-producing computation.
///
/// References are the target's sole aliasing mechanism: the target language
/// has no address-of operator, so a reference renders to a capsule object of
/// closures captured over the textual access path of the referent. A shared
/// reference exposes `get` alone; a mutable reference also exposes `set`,
/// closing over the write path.
pub open spec fn spec_rvalue(rv: Rvalue) -> Seq<char>
    decreases rv,
{
    match rv {
        Rvalue::Use(op) => spec_operand(op),
        Rvalue::Ref(m, lv) => match m {
            Mutability::Shared => "{get:function(){return "@ + spec_lvalue_get(lv) + "}}"@,
            Mutability::Mutable => "{get:function(){return "@ + spec_lvalue_get(lv)
                + "},set:function(x){"@ + spec_lvalue_set(lv, "x"@) + "}}"@,
        },
        Rvalue::Len(lv) => spec_lvalue_get(lv) + ".length"@,
        Rvalue::Cast(op) => spec_operand(op),
        Rvalue::BinaryOp(op, x, y) => "("@ + spec_operand(x) + ")"@ + spec_binop(op) + "("@
            + spec_operand(y) + ")"@,
        Rvalue::CheckedBinaryOp(op, x, y) => "("@ + spec_operand(x) + ")"@ + spec_binop(op) + "("@
            + spec_operand(y) + ")"@,
        Rvalue::UnaryOp(op, x) => spec_unop(op) + "("@ + spec_operand(x) + ")"@,
        Rvalue::Box => spec_box_text(),
        Rvalue::Aggregate(kind, args) => match kind {
            AggregateKind::Sequence => "["@ + spec_args(args@) + "]"@,
            AggregateKind::Variant { tag, fields } => "{d:"@ + spec_dec(tag as nat)
                + spec_variant_fields(fields@, args@) + "}"@,
        },
    }
}

/// The rendering of one statement: an assignment joins the write form of the
/// lvalue with the rendered rvalue; a discriminant store assigns the numeric
/// tag into the reserved discriminant field. Every statement is closed by a
/// semicolon.
pub open spec fn spec_statement(st: Statement) -> Seq<char> {
    match st {
        Statement::Assign(lv, rv) => spec_lvalue_set(lv, spec_rvalue(rv)) + ";"@,
        Statement::SetDiscriminant(lv, tag) => spec_lvalue_get(lv) + ".d="@ + spec_dec(tag as nat)
            + ";"@,
    }
}


/// Renders the read form of a storage location.
pub fn lvalue_get(lv: &Lvalue) -> (r: String)
    ensures
        r@ == spec_lvalue_get(*lv),
    decreases *lv,
{
    match lv {
        Lvalue::Var(i) => var_name(*i),
        Lvalue::Temp(i) => tmp_name(*i),
        Lvalue::Arg(i) => arg_name(*i),
        Lvalue::Static(id) => item_name(*id),
        Lvalue::ReturnPointer => "r".to_owned(),
        Lvalue::Projection(p) => {
            let mut s = lvalue_get(&p.base);
            match &p.elem {
                ProjectionElem::Deref => {
                    s.append(".get()");
                },
                ProjectionElem::Field(f) => {
                    s.append(".");
                    s.append(field_name(*f).as_str());
                },
                ProjectionElem::Index(idx) => {
                    s.append("[");
                    s.append(operand_str(idx).as_str());
                    s.append("]");
                },
            }
            proof {
                assert(s@ =~= spec_lvalue_get(*lv));
            }
            s
        },
    }
}

/// Renders the write form of a storage location, storing the expression
/// `val`.
pub fn lvalue_set(lv: &Lvalue, val: &str) -> (r: String)
    ensures
        r@ == spec_lvalue_set(*lv, val@),
{
    match lv {
        Lvalue::Projection(p) => {
            let mut s = lvalue_get(&p.base);
            match &p.elem {
                ProjectionElem::Deref => {
                    s.append(".set(");
                    s.append(val);
                    s.append(")");
                },
                ProjectionElem::Field(f) => {
                    s.append(".");
                    s.append(field_name(*f).as_str());
                    s.append("=");
                    s.append(val);
                },
                ProjectionElem::Index(idx) => {
                    s.append("[");
                    s.append(operand_str(idx).as_str());
                    s.append("]=");
                    s.append(val);
                },
            }
            proof {
                assert(s@ =~= spec_lvalue_set(*lv, val@));
            }
            s
        },
        _ => {
            let mut s = lvalue_get(lv);
            s.append("=");
            s.append(val);
            proof {
                assert(s@ =~= spec_lvalue_set(*lv, val@));
            }
            s
        },
    }
}

/// Renders a literal.
pub fn literal_str(lit: &Literal) -> (r: String)
    ensures
        r@ == spec_literal(*lit),
{
    match lit {
        Literal::Item(id) => item_name(*id),
        Literal::Integer(v) => dec(*v),
        Literal::Bool(b) => {
            if *b {
                "true".to_owned()
            } else {
                "false".to_owned()
            }
        },
        Literal::Str { text, raw } => {
            if *raw {
                text.clone()
            } else {
                let mut s = "\"".to_owned();
                escape_str(text.as_str(), &mut s);
                s.append("\"");
                proof {
                    assert(s@ =~= spec_literal(*lit));
                }
                s
            }
        },
    }
}

/// Renders an operand.
pub fn operand_str(op: &Operand) -> (r: String)
    ensures
        r@ == spec_operand(*op),
    decreases *op,
{
    match op {
        Operand::Consume(lv) => lvalue_get(lv),
        Operand::Constant(lit) => literal_str(lit),
    }
}

/// Renders an argument list: every operand followed by a comma.
pub fn args_str(args: &Vec<Operand>) -> (r: String)
    ensures
        r@ == spec_args(args@),
{
    let mut s = String::new();
    let mut i: usize = 0;
    while i < args.len()
        invariant
            i <= args@.len(),
            s@ == spec_args(args@.take(i as int)),
        decreases args@.len() - i,
    {
        s.append(operand_str(&args[i]).as_str());
        s.append(",");
        proof {
            let cur = args@.take(i + 1 as int);
            assert(cur.drop_last() =~= args@.take(i as int));
            assert(cur.last() == args@[i as int]);
            assert(s@ =~= spec_args(cur));
        }
        i = i + 1;
    }
    proof {
        assert(args@.take(args@.len() as int) =~= args@);
    }
    s
}

/// Renders the field list of a tagged-variant record: the declared field
/// indices zipped with the operands.
fn variant_fields_str(fields: &Vec<u32>, args: &Vec<Operand>) -> (r: String)
    ensures
        r@ == spec_variant_fields(fields@, args@),
{
    let n = if fields.len() <= args.len() {
        fields.len()
    } else {
        args.len()
    };
    let mut s = String::new();
    let mut i: usize = 0;
    while i < n
        invariant
            i <= n,
            n == if fields@.len() <= args@.len() {
                fields@.len() as int
            } else {
                args@.len() as int
            },
            s@ == spec_variant_fields(fields@.take(i as int), args@.take(i as int)),
        decreases n - i,
    {
        s.append(",");
        s.append(field_name(fields[i]).as_str());
        s.append(":");
        s.append(operand_str(&args[i]).as_str());
        proof {
            let cf = fields@.take(i + 1 as int);
            let ca = args@.take(i + 1 as int);
            assert(cf.take(i as int) =~= fields@.take(i as int));
            assert(ca.take(i as int) =~= args@.take(i as int));
            assert(s@ =~= spec_variant_fields(cf, ca));
        }
        i = i + 1;
    }
    proof {
        let cf = fields@.take(n as int);
        let ca = args@.take(n as int);
        if n == 0 {
            assert(s@ =~= spec_variant_fields(fields@, args@));
        } else {
            assert(cf.take(n - 1) =~= fields@.take(n - 1));
            assert(ca.take(n - 1) =~= args@.take(n - 1));
            if fields@.len() <= args@.len() {
                assert(cf =~= fields@);
            } else {
                assert(ca =~= args@);
            }
            assert(s@ =~= spec_variant_fields(fields@, args@));
        }
    }
    s
}

/// Renders a value-producing computation.
pub fn rvalue_str(rv: &Rvalue) -> (r: String)
    ensures
        r@ == spec_rvalue(*rv),
{
    match rv {
        Rvalue::Use(op) => operand_str(op),
        Rvalue::Ref(m, lv) => {
            let mut s = "{get:function(){return ".to_owned();
            s.append(lvalue_get(lv).as_str());
            match m {
                Mutability::Shared => {
                    s.append("}}");
                },
                Mutability::Mutable => {
                    s.append("},set:function(x){");
                    s.append(lvalue_set(lv, "x").as_str());
                    s.append("}}");
                },
            }
            proof {
                assert(s@ =~= spec_rvalue(*rv));
            }
            s
        },
        Rvalue::Len(lv) => {
            let mut s = lvalue_get(lv);
            s.append(".length");
            proof {
                assert(s@ =~= spec_rvalue(*rv));
            }
            s
        },
        Rvalue::Cast(op) => operand_str(op),
        Rvalue::BinaryOp(op, x, y) => {
            let mut s = "(".to_owned();
            s.append(operand_str(x).as_str());
            s.append(")");
            s.append(binop_to_js(*op));
            s.append("(");
            s.append(operand_str(y).as_str());
            s.append(")");
            proof {
                assert(s@ =~= spec_rvalue(*rv));
            }
            s
        },
        Rvalue::CheckedBinaryOp(op, x, y) => {
            let mut s = "(".to_owned();
            s.append(operand_str(x).as_str());
            s.append(")");
            s.append(binop_to_js(*op));
            s.append("(");
            s.append(operand_str(y).as_str());
            s.append(")");
            proof {
                assert(s@ =~= spec_rvalue(*rv));
            }
            s
        },
        Rvalue::UnaryOp(op, x) => {
            let mut s = unop_to_js(*op).to_owned();
            s.append("(");
            s.append(operand_str(x).as_str());
            s.append(")");
            proof {
                assert(s@ =~= spec_rvalue(*rv));
            }
            s
        },
        Rvalue::Box => {
            "new function(){this.get=function(){return this.x};this.set=function(x){this.x=x}}".to_owned()
        },
        Rvalue::Aggregate(kind, args) => {
            match kind {
                AggregateKind::Sequence => {
                    let mut s = "[".to_owned();
                    s.append(args_str(args).as_str());
                    s.append("]");
                    proof {
                        assert(s@ =~= spec_rvalue(*rv));
                    }
                    s
                },
                AggregateKind::Variant { tag, fields } => {
                    let mut s = "{d:".to_owned();
                    s.append(dec(*tag).as_str());
                    s.append(variant_fields_str(fields, args).as_str());
                    s.append("}");
                    proof {
                        assert(s@ =~= spec_rvalue(*rv));
                    }
                    s
                },
            }
        },
    }
}

/// Renders one statement, closed by a semicolon.
pub fn statement_str(st: &Statement) -> (r: String)
    ensures
        r@ == spec_statement(*st),
{
    match st {
        Statement::Assign(lv, rv) => {
            let mut s = lvalue_set(lv, rvalue_str(rv).as_str());
            s.append(";");
            proof {
                assert(s@ =~= spec_statement(*st));
            }
            s
        },
        Statement::SetDiscriminant(lv, tag) => {
            let mut s = lvalue_get(lv);
            s.append(".d=");
            s.append(dec(*tag).as_str());
            s.append(";");
            proof {
                assert(s@ =~= spec_statement(*st));
            }
            s
        },
    }
}

} // verus!
