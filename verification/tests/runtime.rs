use grindlang::runtime::builtins::{
    member_sig, namespace_field_type, value_sig, ArgRule, Arity,
};
use grindlang::runtime::layout::{
    array_elem_offset, record_field_offset, record_field_repr, record_size, GArrayHeader,
    GMapHeader, GStringHeader, GARRAY_DATA_OFFSET, GMAP_DATA_OFFSET, GMAP_ENTRY_SIZE,
    GSTRING_BYTES_OFFSET, SLOT_SIZE,
};
use grindlang::types::Fields;
use grindlang::{Arena, FnAbi, FnType, MemorySchema, Repr, Slot, Type};

#[test]
fn alloc_advances_and_zeroes() {
    let mut a = Arena::new();
    let r = a.allocate(4, 1);
    assert_eq!(r.offset, 0);
    assert_eq!(r.len, 4);
    assert_eq!(a.bytes(r), &[0, 0, 0, 0]);
    assert_eq!(a.bytes_used(), 4);
}

#[test]
fn alloc_respects_alignment() {
    let mut a = Arena::new();
    a.allocate(1, 1); // offset 0, used = 1
    let r = a.allocate(8, 8); // must pad to offset 8
    assert_eq!(r.offset, 8);
    assert_eq!(a.bytes_used(), 16);
}

#[test]
fn alloc_slice_copies_bytes() {
    let mut a = Arena::new();
    let r = a.alloc_slice(b"hello", 1);
    assert_eq!(a.bytes(r), b"hello");
}

#[test]
fn bytes_mut_allows_writes() {
    let mut a = Arena::new();
    let r = a.allocate(2, 1);
    a.bytes_mut(r).copy_from_slice(&[7, 9]);
    assert_eq!(a.bytes(r), &[7, 9]);
}

#[test]
fn reset_reclaims_but_keeps_capacity() {
    let mut a = Arena::with_capacity(64);
    let cap = a.capacity();
    a.allocate(32, 8);
    assert!(a.bytes_used() > 0);
    a.reset();
    assert_eq!(a.bytes_used(), 0);
    assert_eq!(a.capacity(), cap, "reset must retain capacity");
    // Reused region starts at 0 again.
    assert_eq!(a.allocate(4, 1).offset, 0);
}

#[test]
fn value_sigs_are_catalogued() {
    assert_eq!(value_sig("tostring").unwrap().ret, Type::String);
    assert_eq!(
        value_sig("tonumber").unwrap().ret,
        Type::optional(Type::Number)
    );
    assert!(value_sig("nope").is_none());
}

#[test]
fn member_sigs_match_checker_table() {
    assert_eq!(member_sig("math", "floor").unwrap().ret, Type::Number);
    assert_eq!(
        member_sig("math", "min").unwrap().params,
        vec![Type::Number, Type::Number]
    );
    assert_eq!(member_sig("string", "upper").unwrap().ret, Type::String);
    assert_eq!(
        member_sig("string", "find").unwrap().ret,
        Type::optional(Type::Number)
    );
    let fmt = member_sig("string", "format").unwrap();
    assert_eq!(fmt.rule, ArgRule::FormatVariadic);
    assert_eq!(fmt.arity, Arity::AtLeast(1));
    assert!(member_sig("string", "nope").is_none());
    assert!(member_sig("nope", "floor").is_none());
}

#[test]
fn namespace_fields_catalogued() {
    assert_eq!(namespace_field_type("math", "pi"), Some(Type::Number));
    assert_eq!(namespace_field_type("math", "huge"), Some(Type::Number));
    assert!(namespace_field_type("math", "tau").is_none());
}


#[test]
fn fn_abi_maps_params_and_ret() {
    let ft = FnType {
        params: vec![Type::Number, Type::Bool],
        ret: Box::new(Type::String),
    };
    let abi = FnAbi::of(&ft);
    assert_eq!(abi.params, vec![Repr::Number, Repr::Bool]);
    assert_eq!(abi.ret, Repr::Ptr);
    assert_eq!(abi.cranelift_signature(), "(f64, i8) -> i64");
}

#[test]
fn fn_abi_unit_return_has_no_arrow() {
    let ft = FnType {
        params: vec![Type::Number],
        ret: Box::new(Type::Unit),
    };
    assert_eq!(FnAbi::of(&ft).cranelift_signature(), "(f64)");
}

#[test]
fn memory_schema_from_record() {
    let mut fields = Fields::new();
    fields.insert("gold".to_string(), Type::Number);
    fields.insert("name".to_string(), Type::String);
    let schema = MemorySchema::of(&Type::Record(fields)).unwrap();
    assert_eq!(schema.fields.len(), 2);
    assert_eq!(schema.field("gold").unwrap().repr, Repr::Number);
    assert_eq!(schema.field("name").unwrap().repr, Repr::Ptr);
    assert!(schema.field("missing").is_none());
}

#[test]
fn non_record_memory_has_no_static_schema() {
    assert!(MemorySchema::of(&Type::map(Type::Number)).is_none());
}

#[test]
fn string_layout() {
    // u32 length header, bytes immediately after.
    assert_eq!(std::mem::size_of::<GStringHeader>(), 4);
    assert_eq!(GSTRING_BYTES_OFFSET, 4);
}

#[test]
fn array_layout() {
    assert_eq!(std::mem::size_of::<GArrayHeader>(), 8);
    assert_eq!(GARRAY_DATA_OFFSET, 8);
    assert_eq!(array_elem_offset(0), 8);
    assert_eq!(array_elem_offset(3), 8 + 24);
}

#[test]
fn map_layout() {
    assert_eq!(std::mem::size_of::<GMapHeader>(), 8);
    assert_eq!(GMAP_DATA_OFFSET, 8);
    assert_eq!(GMAP_ENTRY_SIZE, 16);
}

#[test]
fn record_offsets_are_sorted_field_order() {
    let mut fields = Fields::new();
    fields.insert("hp".to_string(), Type::Number);
    fields.insert("alive".to_string(), Type::Bool);
    fields.insert("name".to_string(), Type::String);
    // BTreeMap order: alive, hp, name.
    assert_eq!(record_field_offset(&fields, "alive"), Some(0));
    assert_eq!(record_field_offset(&fields, "hp"), Some(SLOT_SIZE));
    assert_eq!(record_field_offset(&fields, "name"), Some(2 * SLOT_SIZE));
    assert_eq!(record_field_offset(&fields, "missing"), None);
    assert_eq!(record_size(&fields), 3 * SLOT_SIZE);
    assert_eq!(record_field_repr(&fields, "alive"), Some(Repr::Bool));
    assert_eq!(record_field_repr(&fields, "hp"), Some(Repr::Number));
}

#[test]
fn repr_of_scalar_types() {
    assert_eq!(Repr::of(&Type::Number), Repr::Number);
    assert_eq!(Repr::of(&Type::Bool), Repr::Bool);
    assert_eq!(Repr::of(&Type::Unit), Repr::Unit);
    assert_eq!(Repr::of(&Type::String), Repr::Ptr);
}

#[test]
fn repr_of_reference_and_optional_types() {
    assert_eq!(Repr::of(&Type::array(Type::Number)), Repr::Ptr);
    assert_eq!(Repr::of(&Type::map(Type::Bool)), Repr::Ptr);
    assert_eq!(Repr::of(&Type::optional(Type::Number)), Repr::Ptr);
    assert_eq!(Repr::of(&Type::Nil), Repr::Ptr);
    assert_eq!(Repr::of(&Type::Userdata("Mem".into())), Repr::Ptr);
}

#[test]
fn repr_cranelift_types_and_sizes() {
    assert_eq!(Repr::Number.cranelift_type(), "f64");
    assert_eq!(Repr::Bool.cranelift_type(), "i8");
    assert_eq!(Repr::Ptr.cranelift_type(), "i64");
    assert_eq!(Repr::Number.size(), 8);
    assert_eq!(Repr::Bool.size(), 1);
    assert_eq!(Repr::Unit.size(), 0);
}

#[test]
fn slot_number_round_trips() {
    for n in [0.0, -1.5, 123.456_f64, f64::INFINITY, 1e15] {
        assert_eq!(f64::from_bits(Slot::from_number(n.to_bits()).as_number()), n);
    }
    // NaN round-trips bitwise.
    assert!(f64::from_bits(Slot::from_number(f64::NAN.to_bits()).as_number()).is_nan());
}

#[test]
fn slot_bool_and_handle_round_trip() {
    assert!(Slot::from_bool(true).as_bool());
    assert!(!Slot::from_bool(false).as_bool());
    assert_eq!(Slot::from_handle(42).handle(), 42);
    assert!(Slot::null().is_null());
    assert!(!Slot::from_handle(1).is_null());
}
