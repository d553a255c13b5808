use std::sync::Arc;

use miden_core::serde::Serializable;
use miden_core::utils::hash_string_to_word;
use miden_mast_package::{Dependency, Package as MastPackage, TargetType as MastTargetType};
use miden_project_assembly::linking::{
    find_kernel, kernel_runtime_dependency, linked_kernel_package_section, merge_runtime_dependency,
    package_dependency, record_linked_kernel_dependency, LinkState, Linkage, ResolvedPackage,
};
use miden_project_assembly::package::{Package, PackageDependency, TargetType};
use miden_project_assembly::version::SemVer;
use miden_project_assembly::word::Word;

fn word(text: &str) -> Word {
    Word::from_bytes(hash_string_to_word(text).as_bytes()).unwrap()
}

fn dependency(name: &str, version: &str, kind: TargetType, digest: &str) -> PackageDependency {
    PackageDependency {
        name: name.to_string(),
        version: SemVer::parse(version).unwrap(),
        kind,
        digest: word(digest),
    }
}

fn library(name: &str, digest: &str) -> PackageDependency {
    dependency(name, "1.0.0", TargetType::Library, digest)
}

fn package(
    name: &str,
    version: &str,
    kind: MastTargetType,
    dependencies: &[(&str, &str, MastTargetType, &str)],
) -> Arc<Package> {
    let mut package = MastPackage::generate(
        name.into(),
        version.parse().unwrap(),
        MastTargetType::Library,
        dependencies.iter().map(|(name, version, kind, digest)| Dependency {
            name: (*name).into(),
            version: version.parse().unwrap(),
            kind: *kind,
            digest: hash_string_to_word(*digest),
        }),
    );
    package.kind = kind;
    Arc::new(Package::from_bytes(package.to_bytes()).unwrap())
}

fn names(dependencies: &[PackageDependency]) -> Vec<&str> {
    dependencies.iter().map(|dependency| dependency.name.as_str()).collect()
}

fn texts(state: &LinkState) -> Vec<String> {
    state.dependencies().into_iter().map(|dependency| dependency.name).collect()
}

#[test]
fn merged_dependencies_are_in_the_order_of_their_names() {
    let mut list = Vec::new();
    for name in ["b", "a", "B", "ab", "c"] {
        merge_runtime_dependency(&mut list, library(name, name)).unwrap();
    }
    assert_eq!(names(&list), vec!["B", "a", "ab", "b", "c"]);
    assert!(list.iter().all(|dependency| dependency.digest == word(&dependency.name)));
}

#[test]
fn merging_the_same_artifact_twice_keeps_one() {
    let mut list = Vec::new();
    merge_runtime_dependency(&mut list, library("a", "x")).unwrap();
    merge_runtime_dependency(&mut list, library("a", "x")).unwrap();
    assert_eq!(names(&list), vec!["a"]);
}

#[test]
fn merging_refuses_another_artifact_of_the_same_name() {
    for other in [
        library("a", "y"),
        dependency("a", "1.0.1", TargetType::Library, "x"),
        dependency("a", "1.0.0", TargetType::Kernel, "x"),
    ] {
        let mut list = Vec::new();
        merge_runtime_dependency(&mut list, library("a", "x")).unwrap();
        let expected = format!(
            "conflicting runtime dependency 'a' resolved to versions '1.0.0#{}' and '{}#{}'",
            hash_string_to_word("x"),
            other.version.as_str(),
            miden_core::Word::try_from(other.digest.as_bytes()).unwrap()
        );
        assert_eq!(merge_runtime_dependency(&mut list, other), Err(expected));
        assert_eq!(names(&list), vec!["a"]);
        assert!(list[0].digest == word("x"));
    }
}

/// All the orders of a list.
fn orders(list: &[PackageDependency]) -> Vec<Vec<PackageDependency>> {
    if list.is_empty() {
        return vec![Vec::new()];
    }
    let mut all = Vec::new();
    for i in 0..list.len() {
        let mut rest = list.to_vec();
        let first = rest.remove(i);
        for mut order in orders(&rest) {
            order.insert(0, first.clone());
            all.push(order);
        }
    }
    all
}

#[test]
fn the_order_of_merging_does_not_matter() {
    let merged = |order: Vec<PackageDependency>| {
        let mut list = Vec::new();
        for dependency in order {
            merge_runtime_dependency(&mut list, dependency)?;
        }
        Ok::<Vec<PackageDependency>, String>(list)
    };
    let agreeing = [library("b", "x"), library("a", "y"), library("b", "x"), library("c", "z")];
    for order in orders(&agreeing) {
        let list = merged(order).unwrap();
        assert_eq!(names(&list), vec!["a", "b", "c"]);
        assert!(list[0].digest == word("y"));
        assert!(list[1].digest == word("x"));
        assert!(list[2].digest == word("z"));
    }
    let conflicting = [library("b", "x"), library("a", "y"), library("b", "z"), library("c", "z")];
    for order in orders(&conflicting) {
        assert!(merged(order).is_err());
    }
}

#[test]
fn the_kernel_section_counts_once_its_kernel_is_extracted() {
    let kernel = package("k", "1.0.0", MastTargetType::Kernel, &[]);
    let bytes = kernel.to_bytes().clone();
    let found = find_kernel(Ok(Some(bytes)), Some(Arc::clone(&kernel))).unwrap().unwrap();
    assert_eq!(found.name(), "k");
    assert!(find_kernel(Ok(None), None).unwrap().is_none());
    let refused = find_kernel(Err("no kernel".to_string()), Some(kernel));
    assert_eq!(refused.map(|_| ()), Err("no kernel".to_string()));
}

#[test]
fn one_kernel_is_recorded() {
    let first = package("k", "1.0.0", MastTargetType::Kernel, &[]);
    let second = package("l", "1.0.0", MastTargetType::Kernel, &[]);
    let mut list = Vec::new();
    let mut kernel = None;
    record_linked_kernel_dependency(&mut list, &mut kernel, Arc::clone(&first)).unwrap();
    record_linked_kernel_dependency(&mut list, &mut kernel, Arc::clone(&first)).unwrap();
    assert_eq!(names(&list), vec!["k"]);
    assert_eq!(list[0].kind, TargetType::Kernel);
    assert_eq!(kernel.as_ref().unwrap().name(), "k");

    let identity = |package: &Package| {
        format!("{}@{}", package.name(), package.exact_version().text())
    };
    let error = record_linked_kernel_dependency(&mut list, &mut kernel, Arc::clone(&second));
    assert_eq!(
        error.unwrap_err(),
        format!(
            "conflicting linked kernel packages '{}' and '{}'",
            identity(&first),
            identity(&second)
        )
    );
    assert_eq!(kernel.unwrap().name(), "k");

    let mut list = vec![library("k", "other")];
    let mut kernel = None;
    let error = record_linked_kernel_dependency(&mut list, &mut kernel, first).unwrap_err();
    assert!(error.starts_with("conflicting runtime dependency 'k'"));
    assert!(kernel.is_none());
}

#[test]
fn a_package_may_need_one_kernel() {
    let none = package("p", "1.0.0", MastTargetType::Library, &[]);
    assert!(kernel_runtime_dependency(&none).unwrap().is_none());
    let one = package(
        "p",
        "1.0.0",
        MastTargetType::Library,
        &[
            ("a", "1.0.0", MastTargetType::Library, "a"),
            ("k", "2.0.0", MastTargetType::Kernel, "k"),
        ],
    );
    let kernel = kernel_runtime_dependency(&one).unwrap().unwrap();
    assert_eq!((kernel.name.as_str(), kernel.version.as_str()), ("k", "2.0.0"));
    let two = package(
        "p",
        "1.0.0",
        MastTargetType::Library,
        &[
            ("k", "2.0.0", MastTargetType::Kernel, "k"),
            ("l", "2.0.0", MastTargetType::Kernel, "l"),
        ],
    );
    assert_eq!(
        kernel_runtime_dependency(&two).unwrap_err(),
        "package 'p' declares multiple kernel runtime dependencies"
    );
}

#[test]
fn kernel_sections_hold_the_encoded_package() {
    let kernel = package("k", "1.0.0", MastTargetType::Kernel, &[]);
    let section = linked_kernel_package_section(&kernel);
    assert_eq!(section.id, "kernel");
    assert_eq!(&section.data, kernel.to_bytes());
    assert_eq!(Package::from_bytes(section.data).unwrap().name(), "k");
}

#[test]
fn dependencies_on_packages() {
    let kernel = package("k", "1.2.3", MastTargetType::Kernel, &[]);
    let dependency = package_dependency(&kernel);
    assert_eq!(dependency.name, "k");
    assert_eq!(dependency.version.as_str(), "1.2.3");
    assert_eq!(dependency.kind, TargetType::Kernel);
    assert!(dependency.digest == kernel.digest());
}

#[test]
fn linking_records_what_is_needed_at_run_time() {
    let needs = [("r", "1.0.0", MastTargetType::Library, "r")];
    let library = package("p", "1.0.0", MastTargetType::Library, &needs);
    let resolved = ResolvedPackage::new(library, None);

    let linked = LinkState::new().link_dependency(&resolved, Linkage::Dynamic).unwrap();
    assert_eq!(texts(&linked), vec!["p", "r"]);
    assert!(linked.kernel().is_none());
    let linked = linked.link_dependency(&resolved, Linkage::Dynamic).unwrap();
    assert_eq!(texts(&linked), vec!["p", "r"]);

    let linked = LinkState::new().link_dependency(&resolved, Linkage::Static).unwrap();
    assert_eq!(texts(&linked), vec!["r"]);
}

#[test]
fn linking_records_the_kernel_that_is_brought_along() {
    let kernel = package("k", "1.0.0", MastTargetType::Kernel, &[]);
    let library = package("p", "1.0.0", MastTargetType::Library, &[]);
    let resolved = ResolvedPackage::new(library, Some(Arc::clone(&kernel)));
    assert_eq!(resolved.kernel().unwrap().name(), "k");

    let linked = LinkState::new().link_dependency(&resolved, Linkage::Static).unwrap();
    assert_eq!(texts(&linked), vec!["k"]);
    assert_eq!(linked.kernel().unwrap().name(), "k");
    let linked = LinkState::new().link_kernel(&resolved).unwrap();
    assert_eq!(texts(&linked), vec!["k"]);

    // A kernel brings itself along, and counts once.
    let resolved = ResolvedPackage::new(Arc::clone(&kernel), Some(kernel));
    let linked = LinkState::new().link_dependency(&resolved, Linkage::Dynamic).unwrap();
    assert_eq!(texts(&linked), vec!["k"]);
    assert_eq!(linked.kernel().unwrap().name(), "k");

    let other = package("l", "1.0.0", MastTargetType::Kernel, &[]);
    let resolved = ResolvedPackage::new(Arc::clone(&other), Some(other));
    let error = linked.link_dependency(&resolved, Linkage::Static).unwrap_err();
    assert!(error.starts_with("conflicting linked kernel packages 'k@1.0.0#"));
}
