use miden_assembly_syntax::ast::types::{
    ArrayType, CallConv, EnumType, FunctionType, PointerType, StructType, Type, TypeRepr, Variant,
};
use miden_assembly_syntax::ast::{Path as MasmPath, PathBuf as MasmPathBuf};
use miden_core::serde::Serializable;
use miden_mast_package::{
    Package as MastPackage, PackageExport, PackageManifest, TargetType, TypeExport,
};
use miden_project_assembly::package::Package;
use miden_project_assembly::package_format::{find_refusal, Refusal};
use std::sync::Arc;

fn package() -> MastPackage {
    *MastPackage::generate(
        "pkg".into(),
        "1.0.0".parse().unwrap(),
        TargetType::Library,
        std::iter::empty::<miden_mast_package::Dependency>(),
    )
}

fn path(text: &str) -> Arc<MasmPath> {
    MasmPathBuf::new(text).unwrap().into_boxed_path().into()
}

/// A package whose manifest exports the types.
fn exporting(types: &[Type]) -> MastPackage {
    let mut package = package();
    let exports = types.iter().enumerate().map(|(i, ty)| {
        PackageExport::Type(TypeExport { path: path(&format!("::pkg::t{i}")), ty: ty.clone() })
    });
    package.manifest = PackageManifest::new(exports).unwrap();
    package
}

/// The number of bytes behind the exports of the manifest: no dependency, and no section.
const TAIL: usize = 2;

/// The package with `bytes` in place of the only type that it exports, which takes one byte.
fn with_type_bytes(bytes: &[u8]) -> Vec<u8> {
    let mut all = exporting(&[Type::Felt]).to_bytes();
    let at = all.len() - TAIL - 1;
    assert_eq!(all[at], 15);
    all.splice(at..at + 1, bytes.iter().copied());
    all
}

fn refused(bytes: Vec<u8>, refusal: Refusal) {
    assert_eq!(find_refusal(&bytes), Some(refusal));
    assert_eq!(Package::from_bytes(bytes).unwrap_err(), refusal.message());
}

fn read(bytes: Vec<u8>) {
    assert_eq!(find_refusal(&bytes), None);
    let package = Package::from_bytes(bytes.clone()).unwrap();
    assert_eq!(package.to_bytes(), &bytes);
}

#[test]
fn packages_are_walked_to_their_end() {
    read(package().to_bytes());
    let fields = [Type::I1, Type::U64, Type::U8];
    let record = Type::Struct(Arc::new(StructType::new(fields.clone())));
    let packed = StructType::new_with_repr(TypeRepr::packed(1), fields.clone());
    let aligned = StructType::new_with_repr(TypeRepr::align(32), fields);
    let wrapper = StructType::new_with_repr(TypeRepr::Transparent, [Type::Never, Type::U128]);
    let variants = [
        Variant::c_like("A".into(), Some(3)),
        Variant::new("B".into(), record.clone(), None),
        Variant::new("C".into(), Type::U256, Some(9)),
    ];
    let tagged = EnumType::new("E".into(), Type::U16, variants).unwrap();
    let function = FunctionType::new(CallConv::C, [Type::Felt, record.clone()], [Type::U32]);
    read(
        exporting(&[
            Type::U256,
            record.clone(),
            Type::Struct(Arc::new(packed)),
            Type::Struct(Arc::new(aligned)),
            Type::Struct(Arc::new(wrapper)),
            Type::Enum(Arc::new(tagged)),
            Type::Array(Arc::new(ArrayType::new(record.clone(), 7))),
            Type::List(Arc::new(Type::Felt)),
            Type::Ptr(Arc::new(PointerType::new(Type::List(Arc::new(record.clone()))))),
            Type::Function(Arc::new(function)),
        ])
        .to_bytes(),
    );
}

#[test]
fn more_exports_than_bytes_are_refused() {
    let mut bytes = exporting(&[]).to_bytes();
    let at = bytes.len() - TAIL - 1;
    assert_eq!(bytes[at], 1);
    bytes.truncate(at);
    // The largest number that the integers of the format can hold.
    bytes.push(0);
    bytes.extend([0xff; 8]);
    refused(bytes, Refusal::Announced);
}

#[test]
fn more_parameters_than_bytes_are_refused() {
    let mut parameters = vec![20, 0, 0];
    parameters.extend([0xff; 8]);
    refused(with_type_bytes(&parameters), Refusal::Announced);
    let mut results = vec![20, 0, 1, 0];
    results.extend([0xff; 8]);
    refused(with_type_bytes(&results), Refusal::Announced);
    read(with_type_bytes(&[20, 0, 1, 3, 15]));
}

#[test]
fn structs_without_a_layout_are_refused() {
    // Two fields with a size in a transparent struct.
    refused(with_type_bytes(&[17, 0, 3, 2, 0, 4, 0, 4]), Refusal::Layout);
    read(with_type_bytes(&[17, 0, 3, 2, 0, 1, 0, 4]));
    // An alignment of three.
    refused(with_type_bytes(&[17, 0, 1, 3, 0, 1, 0, 4]), Refusal::Layout);
    read(with_type_bytes(&[17, 0, 1, 4, 0, 1, 0, 4]));
    // A list has no size.
    refused(with_type_bytes(&[17, 0, 0, 1, 0, 19, 4]), Refusal::Layout);
    read(with_type_bytes(&[19, 17, 0, 0, 1, 0, 4]));
    // A field of more bytes than fit in thirty-two bits: an array of 2^40 elements.
    let mut field = vec![17, 0, 0, 1, 0, 18];
    (1usize << 40).write_into(&mut field);
    field.push(4);
    refused(with_type_bytes(&field), Refusal::Layout);
    // The array alone is fine.
    let mut array = vec![18];
    (1usize << 40).write_into(&mut array);
    array.push(4);
    read(with_type_bytes(&array));
}

#[test]
fn enumerations_without_a_layout_are_refused() {
    // One variant `A` with a list.
    refused(with_type_bytes(&[21, 3, b'E', 4, 3, 3, b'A', 1, 19, 4, 0]), Refusal::Layout);
    read(with_type_bytes(&[21, 3, b'E', 4, 3, 3, b'A', 1, 8, 0]));
}

#[test]
fn lengths_beyond_the_end_are_errors() {
    let mut bytes = package().to_bytes();
    // One section, whose name is announced with the largest length.
    let at = bytes.len() - 1;
    bytes.truncate(at);
    bytes.push(3);
    bytes.push(0);
    bytes.extend([0xff; 8]);
    assert_eq!(find_refusal(&bytes), None);
    assert_eq!(Package::from_bytes(bytes).unwrap_err(), "unexpected end of file");
}

#[test]
fn other_bytes_are_left_to_the_reader() {
    assert_eq!(find_refusal(&[]), None);
    assert_eq!(find_refusal(b"MASP\0\x04\0\0"), None);
    let mut other = package().to_bytes();
    other[0] = 0;
    assert_eq!(find_refusal(&other), None);
    assert!(Package::from_bytes(other).unwrap_err().contains("invalid magic bytes"));
    let whole = package().to_bytes();
    for end in 0..whole.len() {
        assert!(Package::from_bytes(whole[..end].to_vec()).is_err(), "{end}");
    }
}
