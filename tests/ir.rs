use sonatina_ir::cfg::{BlockId, ControlFlowGraph};
use sonatina_ir::function::{Function, Signature, ValueDef};
use sonatina_ir::global_variable::{
    ConstantValue, GlobalVariable, GlobalVariableData, GlobalVariableStore, Immediate, Linkage,
};
use sonatina_ir::inst::{BinaryOp, HasInst, Inst, InstCast, InstData, InstKind, InstSet, Jump, Value};
use sonatina_ir::module::{Endian, FuncRef, ModuleBuilder, ModuleCtx};
use sonatina_ir::types::{CompoundType, CompoundTypeData, DisplayType, Type, TypeStore};

fn test_ctx() -> ModuleCtx {
    ModuleCtx::new(InstSet { kinds: vec![] }, Endian::Le)
}

#[test]
fn display_gv() {
    let mut ctx = test_ctx();

    let cv = ConstantValue::make_imm(Immediate::I32(1618));
    let gv = ctx.gv_store_mut().make_gv(GlobalVariableData::new(
        String::from("foo"),
        Type::I32,
        Linkage::Public,
        true,
        Some(cv),
    ));

    assert_eq!(ctx.display_gv(gv), "i32 const public 1618");
}

#[test]
fn display_gv_array() {
    let mut ctx = test_ctx();

    let cv0 = ConstantValue::make_imm(Immediate::I32(8));
    let cv1 = ConstantValue::make_imm(Immediate::I32(4));
    let cv2 = ConstantValue::make_imm(Immediate::I32(2));
    let const_arr = ConstantValue::make_array(vec![cv0, cv1, cv2]);
    let ty = ctx.ty_store_mut().make_array(Type::I32, 3);
    let gv = ctx.gv_store_mut().make_gv(GlobalVariableData::new(
        String::from("foo"),
        ty,
        Linkage::Private,
        true,
        Some(const_arr),
    ));

    assert_eq!(ctx.display_gv(gv), "[i32;3] const private [8, 4, 2]");
}

#[test]
fn array_type_is_interned() {
    let mut store = TypeStore::new();
    let a = store.make_array(Type::I32, 3);
    let b = store.make_array(Type::I32, 3);
    assert_eq!(a, b);
    let c = store.make_array(Type::I32, 4);
    assert_ne!(a, c);
    let p1 = store.make_ptr(Type::I64);
    let p2 = store.make_ptr(Type::I64);
    assert_eq!(p1, p2);
    assert_ne!(p1, a);
}

#[test]
fn struct_interning_and_lookup() {
    let mut ctx = test_ctx();
    let t = ctx.ty_store_mut().make_struct("Pair", &[Type::I32, Type::I64], false);
    assert_eq!(ctx.ty_store.struct_type_by_name("Pair"), Some(t));
    assert_eq!(ctx.ty_store.struct_type_by_name("Other"), None);
    let found = ctx.with_ty_store(|s| s.struct_type_by_name("Pair"));
    assert_eq!(found, Some(t));
    let def = ctx.ty_store.struct_def(t).unwrap();
    assert_eq!(def.name, "Pair");
    assert_eq!(def.fields, vec![Type::I32, Type::I64]);
    assert!(!def.packed);
    assert_eq!(ctx.ty_store.struct_def(Type::I32), None);
}

#[test]
fn struct_declaration_order_is_kept() {
    let mut store = TypeStore::new();
    store.make_struct("A", &[Type::I8], false);
    store.make_struct("B", &[Type::I16], true);
    store.make_struct("C", &[], false);
    let names: Vec<String> = store.all_struct_data().iter().map(|d| d.name.clone()).collect();
    assert_eq!(names, vec!["A".to_string(), "B".to_string(), "C".to_string()]);
}

#[test]
fn type_queries() {
    let mut store = TypeStore::new();
    let arr = store.make_array(Type::I8, 5);
    let ptr = store.make_ptr(arr);
    assert!(store.is_array(arr));
    assert!(!store.is_ptr(arr));
    assert!(store.is_ptr(ptr));
    assert_eq!(store.deref(ptr), Some(arr));
    assert_eq!(store.deref(arr), None);
    assert_eq!(store.deref(Type::I32), None);
    assert_eq!(store.array_def(arr), Some((Type::I8, 5)));
    assert_eq!(store.array_def(ptr), None);
    assert!(store.is_integral(Type::I256));
    assert!(!store.is_integral(Type::Void));
    assert!(!store.is_integral(ptr));
    if let Type::Compound(c) = ptr {
        assert!(store.resolve_compound(c).is_ptr());
        assert!(!store.resolve_compound(c).is_array());
        assert_eq!(store.resolve_compound(c), &CompoundTypeData::Ptr(arr));
    } else {
        panic!("pointer type is not compound");
    }
}

#[test]
fn type_text_forms() {
    let mut store = TypeStore::new();
    let arr = store.make_array(Type::I32, 3);
    let ptr = store.make_ptr(Type::I64);
    let s = store.make_struct("Foo", &[Type::I8], false);
    let packed = store.make_struct("Bar", &[Type::I8], true);
    let nested = store.make_ptr(arr);
    assert_eq!(Type::I32.to_string(&store), "i32");
    assert_eq!(Type::I1.to_string(&store), "i1");
    assert_eq!(Type::I256.to_string(&store), "i256");
    assert_eq!(Type::Void.to_string(&store), "()");
    assert_eq!(arr.to_string(&store), "[i32;3]");
    assert_eq!(ptr.to_string(&store), "*i64");
    assert_eq!(s.to_string(&store), "{Foo}");
    assert_eq!(packed.to_string(&store), "<{Bar}>");
    assert_eq!(nested.to_string(&store), "*[i32;3]");
    assert_eq!(DisplayType::new(arr, &store).to_string(), "[i32;3]");
}

#[test]
fn integer_order_follows_width() {
    let ints = [Type::I1, Type::I8, Type::I16, Type::I32, Type::I64, Type::I128, Type::I256];
    for (i, a) in ints.iter().enumerate() {
        for (j, b) in ints.iter().enumerate() {
            assert_eq!(a < b, i < j);
            assert_eq!(a > b, i > j);
            assert_eq!(a.partial_cmp(b), i.partial_cmp(&j));
        }
    }
    let mut store = TypeStore::new();
    let p = store.make_ptr(Type::I8);
    assert_eq!(Type::I8.partial_cmp(&p), None);
    assert_eq!(Type::Void.partial_cmp(&Type::I8), None);
    assert_eq!(p.partial_cmp(&p), Some(std::cmp::Ordering::Equal));
    assert_eq!(Type::Void.partial_cmp(&Type::Void), Some(std::cmp::Ordering::Equal));
    assert_eq!(Type::I32.bitwidth(), 32);
}

#[test]
fn constant_text_forms() {
    let s = ConstantValue::make_struct(vec![
        ConstantValue::make_imm(Immediate::I8(-5)),
        ConstantValue::make_array(vec![]),
        ConstantValue::make_imm(Immediate::I1(true)),
    ]);
    assert_eq!(s.to_string(), "{-5, [], 1}");
    assert_eq!(ConstantValue::make_imm(Immediate::I128(i128::MIN)).to_string(), "-170141183460469231731687303715884105728");
    assert_eq!(ConstantValue::make_imm(Immediate::I64(0)).to_string(), "0");
}

#[test]
fn gv_store_lookups() {
    let mut store = GlobalVariableStore::new();
    let a = store.make_gv(GlobalVariableData::constant(
        String::from("a"),
        Type::I64,
        Linkage::External,
        ConstantValue::make_imm(Immediate::I64(7)),
    ));
    let b = store.make_gv(GlobalVariableData::new(String::from("b"), Type::I8, Linkage::Private, false, None));
    assert_eq!(a, GlobalVariable(0));
    assert_eq!(b, GlobalVariable(1));
    assert_eq!(store.gv_by_symbol("a"), Some(a));
    assert_eq!(store.gv_by_symbol("b"), Some(b));
    assert_eq!(store.gv_by_symbol("c"), None);
    assert!(store.is_const(a));
    assert!(!store.is_const(b));
    assert_eq!(store.ty(b), Type::I8);
    assert_eq!(store.init_data(a), Some(&ConstantValue::make_imm(Immediate::I64(7))));
    assert_eq!(store.init_data(b), None);
    let all: Vec<String> = store.all_gv_data().iter().map(|d| d.symbol.clone()).collect();
    assert_eq!(all, vec!["a".to_string(), "b".to_string()]);
    let types = TypeStore::new();
    assert_eq!(store.gv_data(b).to_string(&types), "i8 private");
    assert_eq!(store.gv_data(a).to_string(&types), "i64 const external 7");
}

fn add_function() -> Function {
    let sig = Signature::new("f", Linkage::Public, &[Type::I32, Type::I32], &[Type::I32]);
    let mut func = Function::new(sig);
    let bb0 = func.append_block();
    let v0 = func.arg_values()[0];
    let v1 = func.arg_values()[1];
    let add = func.append_inst(InstData::Binary { op: BinaryOp::Add, lhs: v0, rhs: v1, ty: Type::I32 }, bb0);
    let v2 = func.dfg.inst_result(add).unwrap();
    func.append_inst(InstData::Return { arg: Some(v2) }, bb0);
    func
}

#[test]
fn single_block_function_cfg() {
    let func = add_function();
    assert_eq!(func.arg_values(), &[Value(0), Value(1)]);
    assert_eq!(func.dfg.value_def(Value(0)), ValueDef::Arg { ty: Type::I32, idx: 0 });
    assert_eq!(func.dfg.value_def(Value(2)), ValueDef::Result(sonatina_ir::inst::Insn(0)));
    assert_eq!(func.dfg.value_ty(Value(2)), Type::I32);
    let mut cfg = ControlFlowGraph::new();
    cfg.compute(&func);
    assert_eq!(cfg.entry(), Some(BlockId(0)));
    assert_eq!(cfg.exits(), &[BlockId(0)]);
    assert_eq!(cfg.post_order(), vec![BlockId(0)]);
    assert_eq!(cfg.succ_num_of(BlockId(0)), 0);
}

fn diamond() -> Function {
    let sig = Signature::new("d", Linkage::Private, &[Type::I1], &[]);
    let mut func = Function::new(sig);
    let bb0 = func.append_block();
    let bb1 = func.append_block();
    let bb2 = func.append_block();
    let bb3 = func.append_block();
    let cond = func.arg_values()[0];
    func.append_inst(InstData::Br { cond, nz_dest: bb1, z_dest: bb2 }, bb0);
    func.append_inst(InstData::Jump { dest: bb3 }, bb1);
    func.append_inst(InstData::Jump { dest: bb3 }, bb2);
    func.append_inst(InstData::Return { arg: None }, bb3);
    func
}

#[test]
fn diamond_post_order() {
    let func = diamond();
    let mut cfg = ControlFlowGraph::new();
    cfg.compute(&func);
    let po = cfg.post_order();
    assert_eq!(po, vec![BlockId(3), BlockId(2), BlockId(1), BlockId(0)]);
    assert_eq!(cfg.preds_of(BlockId(3)), vec![BlockId(1), BlockId(2)]);
    assert_eq!(cfg.succs_of(BlockId(0)), vec![BlockId(1), BlockId(2)]);
    assert_eq!(cfg.pred_num_of(BlockId(0)), 0);
    assert_eq!(cfg.exits(), &[BlockId(3)]);
}

#[test]
fn unreachable_block_not_visited() {
    let sig = Signature::new("u", Linkage::Public, &[], &[]);
    let mut func = Function::new(sig);
    let bb0 = func.append_block();
    let bb1 = func.append_block();
    func.append_inst(InstData::Return { arg: None }, bb0);
    func.append_inst(InstData::Jump { dest: bb0 }, bb1);
    let mut cfg = ControlFlowGraph::new();
    cfg.compute(&func);
    assert_eq!(cfg.post_order(), vec![BlockId(0)]);
    assert_eq!(cfg.preds_of(bb0), vec![bb1]);
}

#[test]
fn reverse_edges_twice_restores() {
    let func = diamond();
    let mut cfg = ControlFlowGraph::new();
    cfg.compute(&func);
    let succs: Vec<Vec<BlockId>> = (0..4).map(|b| cfg.succs_of(BlockId(b))).collect();
    let preds: Vec<Vec<BlockId>> = (0..4).map(|b| cfg.preds_of(BlockId(b))).collect();
    cfg.reverse_edges(BlockId(3), &[BlockId(0)]);
    assert_eq!(cfg.entry(), Some(BlockId(3)));
    assert_eq!(cfg.succs_of(BlockId(3)), vec![BlockId(1), BlockId(2)]);
    assert_eq!(cfg.post_order(), vec![BlockId(0), BlockId(2), BlockId(1), BlockId(3)]);
    cfg.reverse_edges(BlockId(0), &[BlockId(3)]);
    for b in 0..4 {
        assert_eq!(cfg.succs_of(BlockId(b)), succs[b as usize]);
        assert_eq!(cfg.preds_of(BlockId(b)), preds[b as usize]);
    }
    assert_eq!(cfg.entry(), Some(BlockId(0)));
    assert_eq!(cfg.exits(), &[BlockId(3)]);
}

#[test]
fn edges_add_remove_clear() {
    let mut cfg = ControlFlowGraph::new();
    cfg.add_edge(BlockId(2), BlockId(5));
    cfg.add_edge(BlockId(2), BlockId(1));
    cfg.add_edge(BlockId(2), BlockId(5));
    assert_eq!(cfg.succs_of(BlockId(2)), vec![BlockId(1), BlockId(5)]);
    assert_eq!(cfg.preds_of(BlockId(5)), vec![BlockId(2)]);
    cfg.remove_edge(BlockId(2), BlockId(5));
    assert_eq!(cfg.succs_of(BlockId(2)), vec![BlockId(1)]);
    assert_eq!(cfg.preds_of(BlockId(5)), vec![]);
    cfg.clear();
    assert_eq!(cfg.succ_num_of(BlockId(2)), 0);
    assert_eq!(cfg.entry(), None);
    assert_eq!(cfg.post_order(), vec![]);
}

#[test]
fn instruction_capabilities() {
    let br = InstData::Br { cond: Value(0), nz_dest: BlockId(1), z_dest: BlockId(2) };
    assert!(br.is_terminator());
    assert!(br.has_side_effect());
    assert_eq!(br.as_text(), "br");
    assert_eq!(br.analyze_branch().dests, vec![BlockId(1), BlockId(2)]);
    assert_eq!(br.visit_values(), vec![Value(0)]);
    let mut add = InstData::Binary { op: BinaryOp::Add, lhs: Value(1), rhs: Value(1), ty: Type::I8 };
    assert!(!add.is_terminator());
    assert!(!add.has_side_effect());
    assert!(add.analyze_branch().dests.is_empty());
    add.replace_value(Value(1), Value(9));
    assert_eq!(add.visit_values(), vec![Value(9), Value(9)]);
    let table = InstData::BrTable {
        scrutinee: Value(3),
        default: Some(BlockId(7)),
        table: vec![(Value(4), BlockId(8)), (Value(5), BlockId(9))],
    };
    assert_eq!(table.analyze_branch().dests, vec![BlockId(7), BlockId(8), BlockId(9)]);
    assert_eq!(table.visit_values(), vec![Value(3), Value(4), Value(5)]);
    let ret = InstData::Return { arg: None };
    assert!(ret.analyze_branch().dests.is_empty());
}

#[test]
fn capability_witness_gates_downcast() {
    let jump = InstData::Jump { dest: BlockId(4) };
    let with_jump = InstSet { kinds: vec![InstKind::Binary, InstKind::Jump] };
    let without = InstSet { kinds: vec![InstKind::Binary] };
    assert!(with_jump.is(&jump));
    assert!(!without.is(&jump));
    assert_eq!(Jump::downcast(&with_jump, &jump), Some(Jump { dest: BlockId(4) }));
    assert_eq!(Jump::downcast(&without, &jump), None);
    assert_eq!(Jump::downcast(&with_jump, &InstData::Unreachable), None);
    assert_eq!(Jump::map(&with_jump, &jump, |j| j.dest), Some(BlockId(4)));
    assert_eq!(Jump::map(&without, &jump, |j| j.dest), None);
}

#[test]
fn module_builder_declares() {
    let mut builder = ModuleBuilder::new(test_ctx());
    let f = builder.declare_function(Signature::new("f", Linkage::Public, &[Type::I32], &[]));
    let g = builder.declare_function(Signature::new("g", Linkage::External, &[], &[]));
    assert_eq!(f, FuncRef(0));
    assert_eq!(g, FuncRef(1));
    assert_eq!(builder.get_func_ref("g"), Some(g));
    assert_eq!(builder.get_func_ref("h"), None);
    let func = builder.func_builder(f);
    let bb = func.append_block();
    func.append_inst(InstData::Return { arg: None }, bb);
    let module = builder.build();
    assert_eq!(module.iter_functions(), vec![f, g]);
    assert!(module.is_external(g));
    assert!(!module.is_external(f));
    assert_eq!(module.func(f).layout.iter_block(), vec![BlockId(0)]);
    assert_eq!(module.func(f).name, "f");
    assert_eq!(module.func(f).sig.args(), &[Type::I32]);
}

#[test]
fn signature_accessors() {
    let mut sig = Signature::new("s", Linkage::Private, &[Type::I8], &[]);
    sig.append_arg(Type::I16);
    sig.append_return(Type::I1);
    assert_eq!(sig.name(), "s");
    assert_eq!(sig.linkage(), Linkage::Private);
    assert_eq!(sig.args(), &[Type::I8, Type::I16]);
    assert_eq!(sig.return_types(), &[Type::I1]);
}

#[test]
fn layout_queries() {
    let func = diamond();
    assert_eq!(func.layout.entry_block(), Some(BlockId(0)));
    assert_eq!(func.layout.first_insn_of(BlockId(0)), func.layout.last_insn_of(BlockId(0)));
    let i = func.layout.last_insn_of(BlockId(3)).unwrap();
    assert_eq!(func.layout.insn_block(i), BlockId(3));
    assert!(func.layout.is_block_inserted(BlockId(2)));
    assert!(!func.layout.is_block_inserted(BlockId(9)));
    assert!(func.dfg.is_return(i));
    assert!(func.dfg.is_terminator(i));
    assert!(!func.dfg.is_branch(i));
    let b = func.layout.last_insn_of(BlockId(0)).unwrap();
    assert!(func.dfg.is_branch(b));
    assert_eq!(func.dfg.inst_result(b), None);
}

#[test]
fn type_as_entity() {
    let mut map = cranelift_entity::SecondaryMap::new();
    assert_eq!(map.capacity(), 0);

    map[Type::I1] = 1;
    map[Type::I32] = 32;

    let cmpd_ty = CompoundType(1);
    map[Type::Compound(cmpd_ty)] = 257;

    assert_eq!(map[Type::Void], 0);
    assert_eq!(map[Type::I32], 32);
    assert_eq!(map[Type::Compound(cmpd_ty)], 257);
}

#[test]
fn type_key_index_round_trip() {
    assert_eq!(Type::I64.key_index(), Some(64));
    assert_eq!(Type::Void.key_index(), Some(0));
    assert_eq!(Type::Compound(CompoundType(5)).key_index(), Some(261));
    assert_eq!(Type::from_index(261), Some(Type::Compound(CompoundType(5))));
    assert_eq!(Type::from_index(128), Some(Type::I128));
    assert_eq!(Type::from_index(3), None);
    assert_eq!(<Type as cranelift_entity::EntityRef>::new(16), Type::I16);
    assert_eq!(cranelift_entity::EntityRef::index(Type::I8), 8);
}

#[test]
fn opcode_tags() {
    let add = InstData::Binary { op: BinaryOp::Add, lhs: Value(0), rhs: Value(1), ty: Type::I32 };
    assert_eq!(add.as_text(), "add");
    assert_eq!(InstData::Jump { dest: BlockId(0) }.as_text(), "jump");
    assert_eq!(InstData::Return { arg: None }.as_text(), "return");
    assert_eq!(InstData::Unreachable.as_text(), "unreachable");
    let table = InstData::BrTable { scrutinee: Value(0), default: None, table: vec![] };
    assert_eq!(table.as_text(), "br_table");
}

#[test]
fn built_module_functions_keep_arguments() {
    let mut builder = ModuleBuilder::new(test_ctx());
    let f = builder.declare_function(Signature::new("k", Linkage::External, &[Type::I8, Type::I64], &[Type::I1]));
    let module = builder.build();
    let func = module.func(f);
    assert_eq!(func.arg_values(), &[Value(0), Value(1)]);
    assert_eq!(func.dfg.value_ty(Value(1)), Type::I64);
    assert_eq!(func.sig.return_types(), &[Type::I1]);
    assert_eq!(func.sig.linkage(), Linkage::External);
}
