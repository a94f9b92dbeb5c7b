use omgpp::ffi::{endpoint_to_ffi, identity_to_ffi};
use omgpp::{
    AssetCollection, AssetListing, Assets, Endpoint, Folder, Resource, ResourceIndexer,
    ResourceManager, ToFfi,
};

fn strings(v: &[&str]) -> Vec<String> {
    v.iter().map(|s| s.to_string()).collect()
}

#[test]
fn folder_exclusion_uses_glob_patterns() {
    let f = Folder::new("languages", vec!["**/__pycache__/**", "*.tmp"]);
    assert!(f.is_excluded(&"languages/python/__pycache__/x.pyc".to_string()));
    assert!(f.is_excluded(&"a.tmp".to_string()));
    assert!(!f.is_excluded(&"languages/python/main.py".to_string()));
    let kept = f.keep(&strings(&["a.tmp", "languages/cs/A.cs", "languages/__pycache__/b"]));
    assert_eq!(kept, strings(&["languages/cs/A.cs"]));
}

#[test]
fn registry_accumulates_files_per_asset() {
    let mut indexer = ResourceIndexer::new();
    let mut protos = Resource::new("proto", vec![]);
    protos.add(Assets::AssetCollection(AssetCollection::new(vec!["proto/**/*"])));
    let mut csharp = Resource::new("csharp", vec![]);
    csharp.add(Assets::Folder(Folder::new("languages", vec!["**/__pycache__/**"])));
    csharp.add(Assets::AssetCollection(AssetCollection::new(vec![])));
    csharp.add(Assets::Folder(Folder::new("extra", vec![])));
    csharp.add(Assets::Folder(Folder::new("missing", vec![])));
    indexer.add(protos);
    indexer.add(csharp);
    let listings = vec![
        vec![AssetListing::Found(strings(&["proto/a.proto", "proto/b/c.proto"]))],
        vec![
            AssetListing::Found(strings(&["languages/A.cs", "languages/x/__pycache__/y.pyc"])),
            AssetListing::Found(strings(&["ignored"])),
            AssetListing::Found(strings(&["extra/e.txt"])),
            AssetListing::Missing,
        ],
    ];
    let registry = indexer.create_registry(&listings);
    assert_eq!(registry.version, 1);
    let items: Vec<(String, Vec<String>)> =
        registry.items.iter().map(|i| (i.name.clone(), i.files.clone())).collect();
    assert_eq!(
        items,
        vec![
            ("proto".to_string(), strings(&["proto/a.proto", "proto/b/c.proto"])),
            ("csharp".to_string(), strings(&["languages/A.cs"])),
            ("csharp".to_string(), strings(&["languages/A.cs", "extra/e.txt"])),
        ]
    );
}

#[test]
fn registry_of_nothing_is_empty() {
    let indexer = ResourceIndexer::new();
    let registry = indexer.create_registry(&vec![]);
    assert_eq!(registry.version, 1);
    assert!(registry.items.is_empty());
}

#[test]
fn missing_listing_skips_asset() {
    let mut indexer = ResourceIndexer::new();
    indexer.add(Resource::new("r", vec![Assets::Folder(Folder::new("f", vec![]))]));
    assert!(indexer.create_registry(&vec![]).items.is_empty());
}

#[test]
fn manager_keeps_resources_in_order() {
    let mut m = ResourceManager::new();
    m.add(Resource::new("a", vec![]));
    m.add(Resource::new("b", vec![]));
    let names: Vec<String> = m.resource_list().iter().map(|r| r.resource_name().clone()).collect();
    assert_eq!(names, strings(&["a", "b"]));
    let c = AssetCollection::new(vec!["x/*", "y"]);
    assert_eq!(c.patterns(), &strings(&["x/*", "y"]));
    let f = Folder::new("dir", vec!["z"]);
    assert_eq!(f.folder_path(), "dir");
    assert_eq!(f.exclude_patterns(), &strings(&["z"]));
}

#[test]
fn boundary_forms_are_big_endian() {
    let e = Endpoint::from_ipv4([192, 168, 0, 1], 8080);
    let f = endpoint_to_ffi(&e);
    assert_eq!(f.ipv6_octets, [0, 0, 0, 0, 0, 0, 0, 0, 0, 0, 0xff, 0xff, 192, 168, 0, 1]);
    assert_eq!(f.port, 8080);
    let id: u128 = 0x0102_0304_0506_0708_090a_0b0c_0d0e_0f10;
    assert_eq!(identity_to_ffi(id).bytes, [1, 2, 3, 4, 5, 6, 7, 8, 9, 10, 11, 12, 13, 14, 15, 16]);
    assert_eq!(id.to_ffi().bytes, id.to_be_bytes());
    assert_eq!(e.to_ffi().port, 8080);
}

#[test]
fn unflagged_paths_are_kept_in_order() {
    let paths = strings(&["a", "b", "c", "d"]);
    assert_eq!(omgpp::resources::keep_unflagged(&paths, &vec![false, true, false]), strings(&["a", "c", "d"]));
    assert_eq!(omgpp::resources::keep_unflagged(&paths, &vec![true, true, true, true]), Vec::<String>::new());
    assert_eq!(omgpp::resources::keep_unflagged(&vec![], &vec![true]), Vec::<String>::new());
}
