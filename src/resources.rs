use vstd::prelude::*;
use crate::wire::texts;

verus! {

/// The texts of a list of string slices.
pub open spec fn str_texts(v: Seq<&str>) -> Seq<Seq<char>> {
    v.map_values(|s: &str| s@)
}

fn owned_all(v: Vec<&str>) -> (r: Vec<String>)
    ensures
        texts(r@) == str_texts(v@),
{
    let mut r: Vec<String> = Vec::new();
    let mut k: usize = 0;
    while k < v.len()
        invariant
            k <= v@.len(),
            texts(r@) == str_texts(v@).subrange(0, k as int),
        decreases v@.len() - k,
    {
        let ghost before = r@;
        let item: &str = v[k];
        let owned: String = item.to_owned();
        assert(owned@ == v@[k as int]@);
        r.push(owned);
        assert(texts(r@) =~= str_texts(v@).subrange(0, k + 1)) by {
            assert(texts(before) =~= str_texts(v@).subrange(0, k as int));
            assert(texts(r@) =~= texts(before).push(owned@));
        }
        k = k + 1;
    }
    assert(str_texts(v@).subrange(0, v@.len() as int) =~= str_texts(v@));
    r
}

/// A set of glob patterns, relative to the search directory.
pub struct AssetCollection {
    paths: Vec<String>,
}

impl AssetCollection {
    /// A collection of the patterns `paths`.
    pub fn new(paths: Vec<&str>) -> (r: AssetCollection)
        ensures
            r.pattern_texts() == str_texts(paths@),
    {
        AssetCollection { paths: owned_all(paths) }
    }

    /// The patterns, as texts.
    pub closed spec fn pattern_texts(&self) -> Seq<Seq<char>> {
        texts(self.paths@)
    }

    /// The patterns.
    pub fn patterns(&self) -> (r: &Vec<String>)
        ensures
            texts(r@) == self.pattern_texts(),
    {
        &self.paths
    }
}

/// A directory, relative to the search directory, whose files are indexed
/// except those that match one of the `exclude` patterns.
pub struct Folder {
    path: String,
    exclude: Vec<String>,
}

impl Folder {
    /// The folder `path` without the files that match `exclude`.
    pub fn new(path: &str, exclude: Vec<&str>) -> (r: Folder)
        ensures
            r.path_text() == path@,
            r.exclude_texts() == str_texts(exclude@),
    {
        Folder { path: path.to_owned(), exclude: owned_all(exclude) }
    }

    /// The folder's path, as text.
    pub closed spec fn path_text(&self) -> Seq<char> {
        self.path@
    }

    /// The exclusion patterns, as texts.
    pub closed spec fn exclude_texts(&self) -> Seq<Seq<char>> {
        texts(self.exclude@)
    }

    /// The folder's path.
    pub fn folder_path(&self) -> (r: &String)
        ensures
            r@ == self.path_text(),
    {
        &self.path
    }

    /// The exclusion patterns.
    pub fn exclude_patterns(&self) -> (r: &Vec<String>)
        ensures
            texts(r@) == self.exclude_texts(),
    {
        &self.exclude
    }
}

/// One source of files of a resource.
pub enum Assets {
    AssetCollection(AssetCollection),
    Folder(Folder),
}

/// A named resource made of assets.
pub struct Resource {
    name: String,
    assets: Vec<Assets>,
}

impl Resource {
    /// A resource named `name` with the assets `paths`.
    pub fn new(name: &str, paths: Vec<Assets>) -> (r: Resource)
        ensures
            r.name_text() == name@,
            r.asset_seq() == paths@,
    {
        Resource { name: name.to_owned(), assets: paths }
    }

    /// Appends `asset`.
    pub fn add(&mut self, asset: Assets)
        ensures
            final(self).name_text() == old(self).name_text(),
            final(self).asset_seq() == old(self).asset_seq().push(asset),
    {
        self.assets.push(asset);
    }

    /// The resource's name, as text.
    pub closed spec fn name_text(&self) -> Seq<char> {
        self.name@
    }

    /// The resource's assets.
    pub closed spec fn asset_seq(&self) -> Seq<Assets> {
        self.assets@
    }

    /// The resource's name.
    pub fn resource_name(&self) -> (r: &String)
        ensures
            r@ == self.name_text(),
    {
        &self.name
    }

    /// The resource's assets.
    pub fn asset_list(&self) -> (r: &Vec<Assets>)
        ensures
            r@ == self.asset_seq(),
    {
        &self.assets
    }
}

/// A list of resources whose files are listed.
pub struct ResourceManager {
    resources: Vec<Resource>,
}

impl ResourceManager {
    /// No resources.
    pub fn new() -> (r: ResourceManager)
        ensures
            r.resource_seq().len() == 0,
    {
        ResourceManager { resources: Vec::new() }
    }

    /// Appends `resource`.
    pub fn add(&mut self, resource: Resource)
        ensures
            final(self).resource_seq() == old(self).resource_seq().push(resource),
    {
        self.resources.push(resource);
    }

    /// The resources.
    pub closed spec fn resource_seq(&self) -> Seq<Resource> {
        self.resources@
    }

    /// The resources.
    pub fn resource_list(&self) -> (r: &Vec<Resource>)
        ensures
            r@ == self.resource_seq(),
    {
        &self.resources
    }
}


/// Whether `path` matches the glob pattern `glob`.
pub uninterp spec fn glob_matches(glob: Seq<char>, path: Seq<char>) -> bool;

/// Relies on `glob_match::glob_match`: whether `path` matches the pattern
/// `glob`, which depends on the two texts alone.
#[verifier::external_body]
fn glob_match_text(glob: &str, path: &str) -> (r: bool)
    ensures
        r == glob_matches(glob@, path@),
{
    glob_match::glob_match(glob, path)
}

impl Folder {
    /// Whether one of the exclusion patterns matches `p`.
    pub open spec fn excludes(&self, p: Seq<char>) -> bool {
        exists|k: int|
            0 <= k < self.exclude_texts().len() && #[trigger] glob_matches(self.exclude_texts()[k], p)
    }

    /// Whether one of the exclusion patterns matches `path`.
    pub fn is_excluded(&self, path: &String) -> (r: bool)
        ensures
            r == self.excludes(path@),
    {
        let mut k: usize = 0;
        while k < self.exclude.len()
            invariant
                k <= self.exclude@.len(),
                forall|q: int|
                    0 <= q < k ==> !#[trigger] glob_matches(self.exclude_texts()[q], path@),
            decreases self.exclude@.len() - k,
        {
            if glob_match_text(self.exclude[k].as_str(), path.as_str()) {
                assert(self.exclude_texts()[k as int] == self.exclude@[k as int]@);
                return true;
            }
            assert(self.exclude_texts()[k as int] == self.exclude@[k as int]@);
            k = k + 1;
        }
        false
    }
}

/// Paths of `ps` that no exclusion pattern of `f` matches, in order.
pub open spec fn kept_paths(f: &Folder, ps: Seq<Seq<char>>) -> Seq<Seq<char>>
    decreases ps.len(),
{
    if ps.len() == 0 {
        seq![]
    } else {
        let rest = kept_paths(f, ps.drop_last());
        if f.excludes(ps.last()) {
            rest
        } else {
            rest.push(ps.last())
        }
    }
}

/// What the search directory holds for one asset, relative to it: `Missing`
/// when a folder does not exist; otherwise the files that a collection's
/// patterns match, or all files under a folder.
#[derive(Debug)]
pub enum AssetListing {
    Missing,
    Found(Vec<String>),
}

/// The files an asset contributes, or `None` when it is skipped (a folder that
/// does not exist, a collection without patterns). A folder loses the files
/// that its exclusion patterns match.
pub open spec fn asset_files(a: &Assets, l: &AssetListing) -> Option<Seq<Seq<char>>> {
    match l {
        AssetListing::Missing => None,
        AssetListing::Found(fs) => match a {
            Assets::AssetCollection(c) => if c.pattern_texts().len() == 0 {
                None
            } else {
                Some(texts(fs@))
            },
            Assets::Folder(f) => Some(kept_paths(f, texts(fs@))),
        },
    }
}

/// [`asset_files`] of asset `j`, with `None` where no listing was given.
pub open spec fn files_of(assets: Seq<Assets>, ls: Seq<AssetListing>, j: int) -> Option<Seq<Seq<char>>> {
    if 0 <= j < ls.len() && 0 <= j < assets.len() {
        asset_files(&assets[j], &ls[j])
    } else {
        None
    }
}

/// The files of the first `k` assets, in order.
pub open spec fn files_upto(assets: Seq<Assets>, ls: Seq<AssetListing>, k: int) -> Seq<Seq<char>>
    decreases k,
{
    if k <= 0 {
        seq![]
    } else {
        match files_of(assets, ls, k - 1) {
            None => files_upto(assets, ls, k - 1),
            Some(fs) => files_upto(assets, ls, k - 1) + fs,
        }
    }
}

/// The registry items of a resource named `name` for its first `k` assets:
/// each asset that is not skipped adds one item holding every file found so
/// far for the resource.
pub open spec fn items_upto(name: Seq<char>, assets: Seq<Assets>, ls: Seq<AssetListing>, k: int) -> Seq<
    (Seq<char>, Seq<Seq<char>>),
>
    decreases k,
{
    if k <= 0 {
        seq![]
    } else {
        match files_of(assets, ls, k - 1) {
            None => items_upto(name, assets, ls, k - 1),
            Some(fs) => items_upto(name, assets, ls, k - 1).push((name, files_upto(assets, ls, k))),
        }
    }
}

/// The listings of one resource, or none where not given.
pub open spec fn listing_of(ls: Seq<Vec<AssetListing>>, i: int) -> Seq<AssetListing> {
    if 0 <= i < ls.len() {
        ls[i]@
    } else {
        seq![]
    }
}

/// The registry items of the first `n` resources.
pub open spec fn registry_upto(rs: Seq<Resource>, ls: Seq<Vec<AssetListing>>, n: int) -> Seq<
    (Seq<char>, Seq<Seq<char>>),
>
    decreases n,
{
    if n <= 0 {
        seq![]
    } else {
        registry_upto(rs, ls, n - 1) + items_upto(
            rs[n - 1].name_text(),
            rs[n - 1].asset_seq(),
            listing_of(ls, n - 1),
            rs[n - 1].asset_seq().len() as int,
        )
    }
}

/// One registry entry: a resource name and its files.
#[derive(Debug)]
pub struct ResourceRegistryItem {
    pub name: String,
    pub files: Vec<String>,
}

/// The registry of indexed resources.
#[derive(Debug)]
pub struct ResourceRegistry {
    pub version: i32,
    pub items: Vec<ResourceRegistryItem>,
}

/// The texts of registry items.
pub open spec fn item_texts(v: Seq<ResourceRegistryItem>) -> Seq<(Seq<char>, Seq<Seq<char>>)> {
    v.map_values(|i: ResourceRegistryItem| (i.name@, texts(i.files@)))
}

fn copy_texts(v: &Vec<String>) -> (r: Vec<String>)
    ensures
        texts(r@) == texts(v@),
{
    let mut r: Vec<String> = Vec::new();
    let mut k: usize = 0;
    while k < v.len()
        invariant
            k <= v@.len(),
            texts(r@) == texts(v@).subrange(0, k as int),
        decreases v@.len() - k,
    {
        let ghost before = r@;
        let s = v[k].clone();
        r.push(s);
        assert(texts(r@) =~= texts(v@).subrange(0, k + 1)) by {
            assert(texts(r@) =~= texts(before).push(s@));
        }
        k = k + 1;
    }
    assert(texts(v@).subrange(0, v@.len() as int) =~= texts(v@));
    r
}

/// Resources whose files are gathered into a registry.
pub struct ResourceIndexer {
    resources: Vec<Resource>,
}

impl ResourceIndexer {
    /// No resources.
    pub fn new() -> (r: ResourceIndexer)
        ensures
            r.resource_seq().len() == 0,
    {
        ResourceIndexer { resources: Vec::new() }
    }

    /// Appends `resource`.
    pub fn add(&mut self, resource: Resource)
        ensures
            final(self).resource_seq() == old(self).resource_seq().push(resource),
    {
        self.resources.push(resource);
    }

    /// The resources.
    pub closed spec fn resource_seq(&self) -> Seq<Resource> {
        self.resources@
    }

    /// The resources.
    pub fn resource_list(&self) -> (r: &Vec<Resource>)
        ensures
            r@ == self.resource_seq(),
    {
        &self.resources
    }

    /// The registry (version 1) of the resources, given for each resource
    /// and asset, in order, what the search directory holds for it.
    pub fn create_registry(&self, listings: &Vec<Vec<AssetListing>>) -> (r: ResourceRegistry)
        ensures
            r.version == 1,
            item_texts(r.items@) == registry_upto(
                self.resource_seq(),
                listings@,
                self.resource_seq().len() as int,
            ),
    {
        let mut items: Vec<ResourceRegistryItem> = Vec::new();
        let mut i: usize = 0;
        while i < self.resources.len()
            invariant
                i <= self.resources@.len(),
                item_texts(items@) == registry_upto(self.resources@, listings@, i as int),
            decreases self.resources@.len() - i,
        {
            let resource = &self.resources[i];
            let ghost ls = listing_of(listings@, i as int);
            let ghost name = resource.name@;
            let ghost assets = resource.assets@;
            let ghost base = item_texts(items@);
            let mut found: Vec<String> = Vec::new();
            let mut j: usize = 0;
            proof {
                assert(texts(found@) =~= seq![]);
                assert(base + items_upto(name, assets, ls, 0) =~= base);
            }
            while j < resource.assets.len()
                invariant
                    i < self.resources@.len(),
                    resource == &self.resources@[i as int],
                    name == resource.name@,
                    assets == resource.assets@,
                    ls == listing_of(listings@, i as int),
                    j <= assets.len(),
                    texts(found@) == files_upto(assets, ls, j as int),
                    item_texts(items@) == base + items_upto(name, assets, ls, j as int),
                decreases assets.len() - j,
            {
                let listing: Option<&AssetListing> = if i < listings.len() && j < listings[i].len() {
                    Some(&listings[i][j])
                } else {
                    None
                };
                let asset = &resource.assets[j];
                let add: Option<Vec<String>> = match listing {
                    None => None,
                    Some(AssetListing::Missing) => None,
                    Some(AssetListing::Found(fs)) => match asset {
                        Assets::AssetCollection(c) => {
                            if c.paths.len() == 0 {
                                None
                            } else {
                                Some(copy_texts(fs))
                            }
                        },
                        Assets::Folder(f) => Some(f.keep(fs)),
                    },
                };
                match add {
                    None => {
                        assert(files_of(assets, ls, j as int) is None);
                    },
                    Some(new_files) => {
                        assert(files_of(assets, ls, j as int) == Some(texts(new_files@)));
                        let ghost before_found = texts(found@);
                        let mut k: usize = 0;
                        while k < new_files.len()
                            invariant
                                k <= new_files@.len(),
                                texts(found@) == before_found + texts(new_files@).subrange(0, k as int),
                            decreases new_files@.len() - k,
                        {
                            let ghost prev = found@;
                            let s = new_files[k].clone();
                            found.push(s);
                            assert(texts(found@) =~= before_found + texts(new_files@).subrange(0, k + 1)) by {
                                assert(texts(found@) =~= texts(prev).push(s@));
                            }
                            k = k + 1;
                        }
                        assert(texts(new_files@).subrange(0, new_files@.len() as int) =~= texts(new_files@));
                        let ghost before_items = items@;
                        let item = ResourceRegistryItem {
                            name: resource.name.clone(),
                            files: copy_texts(&found),
                        };
                        items.push(item);
                        assert(item_texts(items@) =~= item_texts(before_items).push((name, texts(found@))));
                    },
                }
                j = j + 1;
            }
            proof {
                assert(item_texts(items@) == registry_upto(self.resources@, listings@, i + 1));
            }
            i = i + 1;
        }
        ResourceRegistry { version: 1, items }
    }
}

/// The elements of `ps` whose flag in `drop` is false, in order.
pub open spec fn unflagged(ps: Seq<Seq<char>>, drop: Seq<bool>) -> Seq<Seq<char>>
    decreases ps.len(),
{
    if ps.len() == 0 {
        seq![]
    } else {
        let rest = unflagged(ps.drop_last(), drop);
        if 0 <= ps.len() - 1 < drop.len() && drop[ps.len() - 1] {
            rest
        } else {
            rest.push(ps.last())
        }
    }
}

/// The paths of `paths` whose flag in `excluded` is not set, in order; a
/// path without a flag is kept.
pub fn keep_unflagged(paths: &Vec<String>, excluded: &Vec<bool>) -> (r: Vec<String>)
    ensures
        texts(r@) == unflagged(texts(paths@), excluded@),
{
    let mut r: Vec<String> = Vec::new();
    let mut k: usize = 0;
    while k < paths.len()
        invariant
            k <= paths@.len(),
            texts(r@) == unflagged(texts(paths@).subrange(0, k as int), excluded@),
        decreases paths@.len() - k,
    {
        let ghost prev = r@;
        let ghost pre = texts(paths@).subrange(0, k + 1);
        assert(pre.drop_last() =~= texts(paths@).subrange(0, k as int));
        assert(pre.last() == paths@[k as int]@);
        let dropped = k < excluded.len() && excluded[k];
        if !dropped {
            let s = paths[k].clone();
            r.push(s);
            assert(texts(r@) =~= texts(prev).push(s@));
        }
        k = k + 1;
    }
    assert(texts(paths@).subrange(0, paths@.len() as int) =~= texts(paths@));
    r
}

/// Whether each path is excluded by `f`.
pub open spec fn exclusion_flags(f: &Folder, ps: Seq<Seq<char>>) -> Seq<bool> {
    ps.map_values(|p: Seq<char>| f.excludes(p))
}

proof fn lemma_kept_is_unflagged(f: &Folder, ps: Seq<Seq<char>>, flags: Seq<bool>)
    requires
        flags == exclusion_flags(f, ps),
    ensures
        kept_paths(f, ps) == unflagged(ps, flags),
    decreases ps.len(),
{
    if ps.len() > 0 {
        let q = ps.drop_last();
        lemma_unflagged_prefix(q, flags, exclusion_flags(f, q));
        lemma_kept_is_unflagged(f, q, exclusion_flags(f, q));
    }
}

proof fn lemma_unflagged_prefix(ps: Seq<Seq<char>>, a: Seq<bool>, b: Seq<bool>)
    requires
        ps.len() <= b.len() <= a.len(),
        forall|k: int| 0 <= k < b.len() ==> a[k] == b[k],
    ensures
        unflagged(ps, a) == unflagged(ps, b),
    decreases ps.len(),
{
    if ps.len() > 0 {
        lemma_unflagged_prefix(ps.drop_last(), a, b);
    }
}

impl Folder {
    /// The paths of `found` that no exclusion pattern matches, in order.
    pub fn keep(&self, found: &Vec<String>) -> (r: Vec<String>)
        ensures
            texts(r@) == kept_paths(self, texts(found@)),
    {
        let mut flags: Vec<bool> = Vec::new();
        let mut k: usize = 0;
        while k < found.len()
            invariant
                k <= found@.len(),
                flags@ == exclusion_flags(self, texts(found@)).subrange(0, k as int),
            decreases found@.len() - k,
        {
            let x = self.is_excluded(&found[k]);
            flags.push(x);
            assert(flags@ =~= exclusion_flags(self, texts(found@)).subrange(0, k + 1));
            k = k + 1;
        }
        assert(flags@ =~= exclusion_flags(self, texts(found@)));
        proof {
            lemma_kept_is_unflagged(self, texts(found@), flags@);
        }
        keep_unflagged(found, &flags)
    }
}

} // verus!
