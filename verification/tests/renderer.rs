use cyano::codegen::{
    arg_name, binop_to_js, dec, field_name, hex, item_name, literal_str, lvalue_get, lvalue_set,
    operand_str, rvalue_str, statement_str, tmp_name, unop_to_js, var_name,
};
use cyano::compiler::goto_str;
use cyano::ir::{
    AggregateKind, BinOp, ItemId, Literal, Lvalue, Mutability, Operand, Projection,
    ProjectionElem, Rvalue, Statement, UnOp,
};

fn int_lit(v: u64) -> Operand {
    Operand::Constant(Literal::Integer(v))
}

fn deref(base: Lvalue) -> Lvalue {
    Lvalue::Projection(Box::new(Projection { base, elem: ProjectionElem::Deref }))
}

fn field(base: Lvalue, f: u32) -> Lvalue {
    Lvalue::Projection(Box::new(Projection { base, elem: ProjectionElem::Field(f) }))
}

fn index(base: Lvalue, idx: Operand) -> Lvalue {
    Lvalue::Projection(Box::new(Projection { base, elem: ProjectionElem::Index(idx) }))
}

#[test]
fn hex_numerals() {
    assert_eq!(hex(0), "0");
    assert_eq!(hex(10), "a");
    assert_eq!(hex(0x2a), "2a");
    assert_eq!(hex(0xdeadbeef), "deadbeef");
    assert_eq!(hex(u64::MAX), "ffffffffffffffff");
}

#[test]
fn dec_numerals() {
    assert_eq!(dec(0), "0");
    assert_eq!(dec(9), "9");
    assert_eq!(dec(12345), "12345");
    assert_eq!(dec(u64::MAX), "18446744073709551615");
}

#[test]
fn storage_names_are_class_plus_hex_index() {
    assert_eq!(arg_name(0), "a0");
    assert_eq!(arg_name(10), "aa");
    assert_eq!(var_name(0), "v0");
    assert_eq!(var_name(31), "v1f");
    assert_eq!(tmp_name(255), "tff");
    assert_eq!(field_name(1), "f1");
}

#[test]
fn item_names_join_index_and_module() {
    assert_eq!(item_name(ItemId { krate: 0, index: 0 }), "d0_0");
    assert_eq!(item_name(ItemId { krate: 2, index: 10 }), "da_2");
}

#[test]
fn lvalue_reads() {
    assert_eq!(lvalue_get(&Lvalue::Var(1)), "v1");
    assert_eq!(lvalue_get(&Lvalue::Temp(0)), "t0");
    assert_eq!(lvalue_get(&Lvalue::Arg(2)), "a2");
    assert_eq!(lvalue_get(&Lvalue::ReturnPointer), "r");
    assert_eq!(lvalue_get(&Lvalue::Static(ItemId { krate: 0, index: 1 })), "d1_0");
    assert_eq!(lvalue_get(&deref(Lvalue::Var(0))), "v0.get()");
    assert_eq!(lvalue_get(&field(Lvalue::Arg(0), 2)), "a0.f2");
    assert_eq!(lvalue_get(&index(Lvalue::Temp(1), int_lit(3))), "t1[3]");
    assert_eq!(lvalue_get(&deref(field(Lvalue::Var(0), 0))), "v0.f0.get()");
}

#[test]
fn lvalue_writes() {
    assert_eq!(lvalue_set(&Lvalue::Var(0), "5"), "v0=5");
    assert_eq!(lvalue_set(&deref(Lvalue::Var(0)), "5"), "v0.set(5)");
    assert_eq!(lvalue_set(&field(Lvalue::Var(0), 0), "5"), "v0.f0=5");
    assert_eq!(lvalue_set(&index(Lvalue::Var(0), int_lit(3)), "5"), "v0[3]=5");
}

#[test]
fn binop_tokens() {
    assert_eq!(binop_to_js(BinOp::Add), "+");
    assert_eq!(binop_to_js(BinOp::Sub), "-");
    assert_eq!(binop_to_js(BinOp::Mul), "*");
    assert_eq!(binop_to_js(BinOp::Div), "/");
    assert_eq!(binop_to_js(BinOp::Rem), "%");
    assert_eq!(binop_to_js(BinOp::BitXor), "^");
    assert_eq!(binop_to_js(BinOp::BitAnd), "&");
    assert_eq!(binop_to_js(BinOp::BitOr), "|");
    assert_eq!(binop_to_js(BinOp::Shl), "<<");
    assert_eq!(binop_to_js(BinOp::Shr), ">>");
    assert_eq!(binop_to_js(BinOp::Eq), "===");
    assert_eq!(binop_to_js(BinOp::Lt), "<");
    assert_eq!(binop_to_js(BinOp::Le), "<=");
    assert_eq!(binop_to_js(BinOp::Ne), "!==");
    assert_eq!(binop_to_js(BinOp::Ge), ">=");
    assert_eq!(binop_to_js(BinOp::Gt), ">");
}

#[test]
fn unop_tokens() {
    assert_eq!(unop_to_js(UnOp::Not), "!");
    assert_eq!(unop_to_js(UnOp::Neg), "-");
}

#[test]
fn literal_rendering() {
    assert_eq!(literal_str(&Literal::Integer(42)), "42");
    assert_eq!(literal_str(&Literal::Bool(true)), "true");
    assert_eq!(literal_str(&Literal::Bool(false)), "false");
    assert_eq!(literal_str(&Literal::Item(ItemId { krate: 0, index: 1 })), "d1_0");
}

#[test]
fn quoted_strings_are_escaped() {
    let lit = Literal::Str { text: String::from("a\"b\\c\nd\te\rf'g"), raw: false };
    assert_eq!(literal_str(&lit), "\"a\\\"b\\\\c\\nd\\te\\rf\\'g\"");
}

#[test]
fn non_printable_characters_escape_to_hex() {
    let lit = Literal::Str { text: String::from("\u{1}\u{e9}"), raw: false };
    assert_eq!(literal_str(&lit), "\"\\u{1}\\u{e9}\"");
}

#[test]
fn raw_strings_splice_verbatim() {
    let lit = Literal::Str { text: String::from("alert(\"x\")"), raw: true };
    assert_eq!(literal_str(&lit), "alert(\"x\")");
}

#[test]
fn operand_rendering() {
    assert_eq!(operand_str(&Operand::Consume(Lvalue::Var(0))), "v0");
    assert_eq!(operand_str(&int_lit(7)), "7");
}

#[test]
fn reference_capsules() {
    assert_eq!(
        rvalue_str(&Rvalue::Ref(Mutability::Shared, Lvalue::Var(0))),
        "{get:function(){return v0}}"
    );
    assert_eq!(
        rvalue_str(&Rvalue::Ref(Mutability::Mutable, Lvalue::Var(0))),
        "{get:function(){return v0},set:function(x){v0=x}}"
    );
    // A mutable reference to a dereference closes over the write path.
    assert_eq!(
        rvalue_str(&Rvalue::Ref(Mutability::Mutable, deref(Lvalue::Var(0)))),
        "{get:function(){return v0.get()},set:function(x){v0.set(x)}}"
    );
}

#[test]
fn heap_cell_capsule() {
    assert_eq!(
        rvalue_str(&Rvalue::Box),
        "new function(){this.get=function(){return this.x};this.set=function(x){this.x=x}}"
    );
}

#[test]
fn rvalue_rendering() {
    assert_eq!(rvalue_str(&Rvalue::Use(int_lit(1))), "1");
    assert_eq!(rvalue_str(&Rvalue::Len(Lvalue::Var(0))), "v0.length");
    assert_eq!(rvalue_str(&Rvalue::Cast(int_lit(5))), "5");
    assert_eq!(rvalue_str(&Rvalue::BinaryOp(BinOp::Add, int_lit(2), int_lit(3))), "(2)+(3)");
    assert_eq!(rvalue_str(&Rvalue::CheckedBinaryOp(BinOp::Sub, int_lit(9), int_lit(4))), "(9)-(4)");
    assert_eq!(
        rvalue_str(&Rvalue::UnaryOp(UnOp::Not, Operand::Consume(Lvalue::Var(0)))),
        "!(v0)"
    );
}

#[test]
fn sequence_aggregates_render_as_array_literals() {
    assert_eq!(
        rvalue_str(&Rvalue::Aggregate(AggregateKind::Sequence, vec![int_lit(1), int_lit(2)])),
        "[1,2,]"
    );
    assert_eq!(rvalue_str(&Rvalue::Aggregate(AggregateKind::Sequence, vec![])), "[]");
}

#[test]
fn variant_aggregates_carry_the_discriminant_field() {
    assert_eq!(
        rvalue_str(&Rvalue::Aggregate(
            AggregateKind::Variant { tag: 1, fields: vec![0, 1] },
            vec![Operand::Consume(Lvalue::Arg(0)), int_lit(7)],
        )),
        "{d:1,f0:a0,f1:7}"
    );
    assert_eq!(
        rvalue_str(&Rvalue::Aggregate(AggregateKind::Variant { tag: 3, fields: vec![] }, vec![])),
        "{d:3}"
    );
}

#[test]
fn statement_rendering() {
    assert_eq!(
        statement_str(&Statement::Assign(
            Lvalue::Var(0),
            Rvalue::BinaryOp(BinOp::Add, int_lit(2), int_lit(3)),
        )),
        "v0=(2)+(3);"
    );
    assert_eq!(statement_str(&Statement::SetDiscriminant(Lvalue::Var(0), 3)), "v0.d=3;");
}

#[test]
fn goto_sets_dispatch_and_restarts() {
    assert_eq!(goto_str(5), "g=5;continue t;");
}
