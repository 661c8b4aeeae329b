//! Access to object stores: which store a table function reads from, given
//! the location, the options and the credentials it was called with.

use vstd::prelude::*;

verus! {

/// The file formats that can be scanned.
#[derive(Debug, Clone, Copy, PartialEq, Eq, Structural)]
pub enum FileType {
    Parquet,
    Csv,
    Json,
}

/// A table function that scans files of one format.
#[derive(Debug, Clone, Copy)]
pub struct ObjScanTableFunc {
    pub file_type: FileType,
    pub name: &'static str,
}

impl ObjScanTableFunc {
    /// `parquet_scan`.
    pub fn parquet_scan() -> (f: ObjScanTableFunc)
        ensures
            f.file_type == FileType::Parquet,
            f.name@ == "parquet_scan"@,
    {
        ObjScanTableFunc { file_type: FileType::Parquet, name: "parquet_scan" }
    }

    /// `csv_scan`.
    pub fn csv_scan() -> (f: ObjScanTableFunc)
        ensures
            f.file_type == FileType::Csv,
            f.name@ == "csv_scan"@,
    {
        ObjScanTableFunc { file_type: FileType::Csv, name: "csv_scan" }
    }

    /// `ndjson_scan`.
    pub fn json_scan() -> (f: ObjScanTableFunc)
        ensures
            f.file_type == FileType::Json,
            f.name@ == "ndjson_scan"@,
    {
        ObjScanTableFunc { file_type: FileType::Json, name: "ndjson_scan" }
    }

    pub fn name(&self) -> (name: &'static str)
        ensures
            name@ == self.name@,
    {
        self.name
    }

    /// Whether a call has the arguments it needs: there is at least the
    /// location argument, and it names at least one location.
    pub fn validate_call(&self, arg_count: usize, url_count: usize) -> (r: Result<(), StoreError>)
        ensures
            r == (if arg_count == 0 {
                Err::<(), StoreError>(StoreError::InvalidNumArgs)
            } else if url_count == 0 {
                Err::<(), StoreError>(StoreError::NoUrls)
            } else {
                Ok::<(), StoreError>(())
            }),
    {
        if arg_count == 0 {
            Err(StoreError::InvalidNumArgs)
        } else if url_count == 0 {
            Err(StoreError::NoUrls)
        } else {
            Ok(())
        }
    }
}

/// How a location is reached.
#[derive(Debug, Clone, Copy, PartialEq, Eq, Structural)]
pub enum UrlScheme {
    File,
    Http,
    Gcs,
    S3,
}

/// A location, as far as the choice of the store reads it.
#[derive(Debug, Clone)]
pub struct SourceUrl {
    pub scheme: UrlScheme,
    /// The host part: the bucket, for a bucket store.
    pub host: Option<String>,
    /// The location as written.
    pub url: String,
}

/// The named options that the choice of the store reads.
#[derive(Debug, Clone)]
pub struct StoreOptions {
    pub service_account_key: Option<String>,
    pub access_key_id: Option<String>,
    pub secret_access_key: Option<String>,
    pub region: Option<String>,
}

/// A credentials object of the catalog.
#[derive(Debug, Clone)]
pub enum Credentials {
    Debug,
    Gcp { service_account_key: String },
    Aws { access_key_id: String, secret_access_key: String },
}

/// The store to read from.
#[derive(Debug, Clone)]
pub enum StoreAccess {
    Local,
    Http { url: String },
    Gcs { bucket: String, service_account_key: Option<String> },
    S3 {
        region: String,
        bucket: String,
        access_key_id: Option<String>,
        secret_access_key: Option<String>,
    },
}

/// Why no store could be chosen.
#[derive(Debug, Clone, Copy, PartialEq, Eq, Structural)]
pub enum StoreError {
    /// The call has no argument, or more than a location and a credentials
    /// object.
    InvalidNumArgs,
    /// The location argument names no location.
    NoUrls,
    /// The credentials object named is not in the catalog.
    MissingCredentials,
    /// The credentials object is not one for GCS.
    InvalidCredentialsForGcs,
    /// The credentials object is not one for S3.
    InvalidCredentialsForS3,
    /// A credentials object was given for a store that takes none.
    CredentialsNotSupported(UrlScheme),
    /// Local files cannot be read in cloud mode.
    LocalAccessInCloud,
    /// The location of a bucket store names no bucket.
    ExpectedBucket,
    /// S3 needs the `region` option.
    MissingRegion,
}

pub open spec fn text_of(s: Option<String>) -> Option<Seq<char>> {
    match s {
        Some(t) => Some(t@),
        None => None,
    }
}

/// A store as a value.
pub enum StoreAccessView {
    Local,
    Http { url: Seq<char> },
    Gcs { bucket: Seq<char>, service_account_key: Option<Seq<char>> },
    S3 {
        region: Seq<char>,
        bucket: Seq<char>,
        access_key_id: Option<Seq<char>>,
        secret_access_key: Option<Seq<char>>,
    },
}

impl View for StoreAccess {
    type V = StoreAccessView;

    open spec fn view(&self) -> StoreAccessView {
        match self {
            StoreAccess::Local => StoreAccessView::Local,
            StoreAccess::Http { url } => StoreAccessView::Http { url: url@ },
            StoreAccess::Gcs { bucket, service_account_key } => StoreAccessView::Gcs {
                bucket: bucket@,
                service_account_key: text_of(*service_account_key),
            },
            StoreAccess::S3 { region, bucket, access_key_id, secret_access_key } => StoreAccessView::S3 {
                region: region@,
                bucket: bucket@,
                access_key_id: text_of(*access_key_id),
                secret_access_key: text_of(*secret_access_key),
            },
        }
    }
}

/// The store for local files: none in cloud mode.
pub open spec fn spec_local_access(is_cloud: bool) -> Result<StoreAccessView, StoreError> {
    if is_cloud {
        Err(StoreError::LocalAccessInCloud)
    } else {
        Ok(StoreAccessView::Local)
    }
}

/// The GCS store of the location's bucket.
pub open spec fn spec_gcs_access(url: SourceUrl, key: Option<Seq<char>>) -> Result<
    StoreAccessView,
    StoreError,
> {
    match url.host {
        None => Err(StoreError::ExpectedBucket),
        Some(bucket) => Ok(StoreAccessView::Gcs { bucket: bucket@, service_account_key: key }),
    }
}

/// The S3 store of the location's bucket, in the region that the options
/// name. The bucket is looked for first.
pub open spec fn spec_s3_access(
    url: SourceUrl,
    opts: StoreOptions,
    access_key_id: Option<Seq<char>>,
    secret_access_key: Option<Seq<char>>,
) -> Result<StoreAccessView, StoreError> {
    match url.host {
        None => Err(StoreError::ExpectedBucket),
        Some(bucket) => match opts.region {
            None => Err(StoreError::MissingRegion),
            Some(region) => Ok(
                StoreAccessView::S3 {
                    region: region@,
                    bucket: bucket@,
                    access_key_id,
                    secret_access_key,
                },
            ),
        },
    }
}

/// The store for a location.
///
/// With no argument after the location, the scheme decides, and keys come
/// from the options. With one, it names a credentials object, which must
/// exist and fit the scheme; only GCS and S3 take one. More arguments are
/// too many.
pub open spec fn spec_store_access(
    is_cloud: bool,
    url: SourceUrl,
    extra_args: usize,
    credentials: Option<Credentials>,
    opts: StoreOptions,
) -> Result<StoreAccessView, StoreError> {
    if extra_args == 0 {
        match url.scheme {
            UrlScheme::Http => Ok(StoreAccessView::Http { url: url.url@ }),
            UrlScheme::File => spec_local_access(is_cloud),
            UrlScheme::Gcs => spec_gcs_access(url, text_of(opts.service_account_key)),
            UrlScheme::S3 => spec_s3_access(
                url,
                opts,
                text_of(opts.access_key_id),
                text_of(opts.secret_access_key),
            ),
        }
    } else if extra_args == 1 {
        match credentials {
            None => Err(StoreError::MissingCredentials),
            Some(creds) => match url.scheme {
                UrlScheme::Gcs => match creds {
                    Credentials::Gcp { service_account_key } => spec_gcs_access(
                        url,
                        Some(service_account_key@),
                    ),
                    _ => Err(StoreError::InvalidCredentialsForGcs),
                },
                UrlScheme::S3 => match creds {
                    Credentials::Aws { access_key_id, secret_access_key } => spec_s3_access(
                        url,
                        opts,
                        Some(access_key_id@),
                        Some(secret_access_key@),
                    ),
                    _ => Err(StoreError::InvalidCredentialsForS3),
                },
                other => Err(StoreError::CredentialsNotSupported(other)),
            },
        }
    } else {
        Err(StoreError::InvalidNumArgs)
    }
}

fn copy_text(s: &Option<String>) -> (copy: Option<String>)
    ensures
        text_of(copy) == text_of(*s),
{
    match s {
        Some(t) => Some(t.clone()),
        None => None,
    }
}

/// Whether `r` is the store, or the error, that `want` says.
pub open spec fn access_is(r: Result<StoreAccess, StoreError>, want: Result<
    StoreAccessView,
    StoreError,
>) -> bool {
    match r {
        Ok(access) => want == Ok::<StoreAccessView, StoreError>(access@),
        Err(e) => want == Err::<StoreAccessView, StoreError>(e),
    }
}

pub fn create_local_store_access(is_cloud: bool) -> (r: Result<StoreAccess, StoreError>)
    ensures
        access_is(r, spec_local_access(is_cloud)),
{
    if is_cloud {
        Err(StoreError::LocalAccessInCloud)
    } else {
        Ok(StoreAccess::Local)
    }
}

pub fn create_http_store_access(source_url: &SourceUrl) -> (r: Result<StoreAccess, StoreError>)
    ensures
        r matches Ok(access) && access@ == (StoreAccessView::Http { url: source_url.url@ }),
{
    Ok(StoreAccess::Http { url: source_url.url.clone() })
}

pub fn create_gcs_table_provider(source_url: &SourceUrl, service_account_key: Option<String>) -> (r:
    Result<StoreAccess, StoreError>)
    ensures
        access_is(r, spec_gcs_access(*source_url, text_of(service_account_key))),
{
    match &source_url.host {
        None => Err(StoreError::ExpectedBucket),
        Some(bucket) => Ok(StoreAccess::Gcs { bucket: bucket.clone(), service_account_key }),
    }
}

pub fn create_s3_store_access(
    source_url: &SourceUrl,
    opts: &StoreOptions,
    access_key_id: Option<String>,
    secret_access_key: Option<String>,
) -> (r: Result<StoreAccess, StoreError>)
    ensures
        access_is(
            r,
            spec_s3_access(
                *source_url,
                *opts,
                text_of(access_key_id),
                text_of(secret_access_key),
            ),
        ),
{
    let bucket = match &source_url.host {
        None => {
            return Err(StoreError::ExpectedBucket);
        },
        Some(bucket) => bucket.clone(),
    };
    let region = match &opts.region {
        None => {
            return Err(StoreError::MissingRegion);
        },
        Some(region) => region.clone(),
    };
    Ok(StoreAccess::S3 { region, bucket, access_key_id, secret_access_key })
}

/// Chooses the store for `source_url`, for a call with `extra_args`
/// arguments after the location. `credentials` is what the catalog holds
/// under the name that the one extra argument gives, if anything.
pub fn get_store_access(
    is_cloud: bool,
    source_url: &SourceUrl,
    extra_args: usize,
    credentials: Option<&Credentials>,
    opts: &StoreOptions,
) -> (r: Result<StoreAccess, StoreError>)
    ensures
        access_is(
            r,
            spec_store_access(
                is_cloud,
                *source_url,
                extra_args,
                match credentials {
                    Some(c) => Some(*c),
                    None => None,
                },
                *opts,
            ),
        ),
{
    if extra_args == 0 {
        match source_url.scheme {
            UrlScheme::Http => create_http_store_access(source_url),
            UrlScheme::File => create_local_store_access(is_cloud),
            UrlScheme::Gcs => create_gcs_table_provider(
                source_url,
                copy_text(&opts.service_account_key),
            ),
            UrlScheme::S3 => create_s3_store_access(
                source_url,
                opts,
                copy_text(&opts.access_key_id),
                copy_text(&opts.secret_access_key),
            ),
        }
    } else if extra_args == 1 {
        let creds = match credentials {
            None => {
                return Err(StoreError::MissingCredentials);
            },
            Some(creds) => creds,
        };
        match source_url.scheme {
            UrlScheme::Gcs => match creds {
                Credentials::Gcp { service_account_key } => create_gcs_table_provider(
                    source_url,
                    Some(service_account_key.clone()),
                ),
                _ => Err(StoreError::InvalidCredentialsForGcs),
            },
            UrlScheme::S3 => match creds {
                Credentials::Aws { access_key_id, secret_access_key } => create_s3_store_access(
                    source_url,
                    opts,
                    Some(access_key_id.clone()),
                    Some(secret_access_key.clone()),
                ),
                _ => Err(StoreError::InvalidCredentialsForS3),
            },
            UrlScheme::Http => Err(StoreError::CredentialsNotSupported(UrlScheme::Http)),
            UrlScheme::File => Err(StoreError::CredentialsNotSupported(UrlScheme::File)),
        }
    } else {
        Err(StoreError::InvalidNumArgs)
    }
}

/// A location together with the store it is in, named by the store's
/// base address.
#[derive(Debug, Clone)]
pub struct Located {
    pub base: String,
    pub location: String,
}

/// The locations that are in one store.
#[derive(Debug)]
pub struct StoreGroup {
    pub base: String,
    pub locations: Vec<String>,
}

pub open spec fn texts(v: Seq<String>) -> Seq<Seq<char>> {
    Seq::new(v.len(), |k: int| v[k]@)
}

/// The locations among `items` that are in the store `base`, in order.
pub open spec fn locations_of(items: Seq<Located>, base: Seq<char>) -> Seq<Seq<char>>
    decreases items.len(),
{
    if items.len() == 0 {
        Seq::empty()
    } else {
        let before = locations_of(items.drop_last(), base);
        if items.last().base@ == base {
            before.push(items.last().location@)
        } else {
            before
        }
    }
}

/// Whether `groups` is `items` put together by store: no store has two
/// groups, each group holds exactly the locations of its store, in the
/// order in which they came, and at least one, and every location is in
/// the group of its store.
pub open spec fn grouped(items: Seq<Located>, groups: Seq<StoreGroup>) -> bool {
    &&& forall|g: int, h: int|
        0 <= g < groups.len() && 0 <= h < groups.len() && g != h ==> (#[trigger] groups[g]).base@
            != (#[trigger] groups[h]).base@
    &&& forall|g: int|
        0 <= g < groups.len() ==> texts((#[trigger] groups[g]).locations@) == locations_of(
            items,
            groups[g].base@,
        ) && groups[g].locations@.len() > 0
    &&& forall|i: int|
        0 <= i < items.len() ==> exists|g: int|
            0 <= g < groups.len() && (#[trigger] groups[g]).base@ == (#[trigger] items[i]).base@
}

/// Whether `i` is where the store `base` first occurs among `items`.
pub open spec fn first_at(items: Seq<Located>, base: Seq<char>, i: int) -> bool {
    &&& 0 <= i < items.len()
    &&& items[i].base@ == base
    &&& forall|k: int| 0 <= k < i ==> (#[trigger] items[k]).base@ != base
}

/// Whether the groups stand in the order in which their stores first occur
/// among `items`.
pub open spec fn in_order_of_first_occurrence(items: Seq<Located>, groups: Seq<StoreGroup>) -> bool {
    forall|g: int, h: int, i: int, j: int|
        0 <= g < h < groups.len() && #[trigger] first_at(items, groups[g].base@, i)
            && #[trigger] first_at(items, groups[h].base@, j) ==> i < j
}

/// Where the group of store `base` stands, if there is one.
fn find_group(groups: &Vec<StoreGroup>, base: &String) -> (found: Option<usize>)
    ensures
        found matches Some(g) ==> g < groups.len() && groups[g as int].base@ == base@,
        found is None ==> forall|h: int| 0 <= h < groups.len() ==> (#[trigger] groups[h]).base@ != base@,
{
    let mut g: usize = 0;
    while g < groups.len()
        invariant
            g <= groups.len(),
            forall|h: int| 0 <= h < g ==> (#[trigger] groups[h]).base@ != base@,
        decreases groups.len() - g,
    {
        if groups[g].base == *base {
            return Some(g);
        }
        g += 1;
    }
    None
}

/// Puts locations together by store, so that each store is opened once.
/// The groups stand in the order in which their stores first occur.
pub fn group_by_store(items: &Vec<Located>) -> (groups: Vec<StoreGroup>)
    ensures
        grouped(items@, groups@),
        in_order_of_first_occurrence(items@, groups@),
        items@.len() == 0 <==> groups@.len() == 0,
{
    let mut groups: Vec<StoreGroup> = Vec::new();
    let mut i: usize = 0;
    proof {
        assert(items@.take(0) =~= Seq::<Located>::empty());
    }
    while i < items.len()
        invariant
            i <= items.len(),
            grouped(items@.take(i as int), groups@),
            in_order_of_first_occurrence(items@.take(i as int), groups@),
            i == 0 <==> groups@.len() == 0,
        decreases items.len() - i,
    {
        let ghost before = groups@;
        let ghost seen = items@.take(i as int);
        let ghost next = items@.take(i + 1);
        let item = &items[i];
        proof {
            assert(next.drop_last() =~= seen);
            assert(next.last() == items@[i as int]);
            // A store that has a group has occurred already, so it does not
            // occur first at the new place.
            assert forall|g: int, k: int|
                0 <= g < before.len() && #[trigger] first_at(
                    next,
                    (#[trigger] before[g]).base@,
                    k,
                ) implies first_at(seen, before[g].base@, k) by {
                lemma_group_store_occurs(seen, before, g);
                let at = choose|at: int|
                    0 <= at < seen.len() && (#[trigger] seen[at]).base@ == before[g].base@;
                assert(next[at] == seen[at]);
                if k == i {
                    assert(next[at].base@ != before[g].base@);
                }
                assert forall|m: int| 0 <= m < k implies (#[trigger] seen[m]).base@
                    != before[g].base@ by {
                    assert(seen[m] == next[m]);
                }
                assert(seen[k] == next[k]);
            }
        }
        match find_group(&groups, &item.base) {
            Some(g) => {
                groups[g].locations.push(item.location.clone());
                proof {
                    assert(groups@.len() == before.len());
                    assert forall|h: int| 0 <= h < groups@.len() implies (#[trigger] groups@[h]).base@
                        == before[h].base@ by {}
                    assert forall|h: int| 0 <= h < groups@.len() implies texts(
                        (#[trigger] groups@[h]).locations@,
                    ) == locations_of(next, groups@[h].base@) && groups@[h].locations@.len() > 0 by {
                        if h == g {
                            assert(texts(groups@[h].locations@) =~= texts(
                                before[h].locations@,
                            ).push(item.location@));
                        } else {
                            assert(before[h].base@ != before[g as int].base@);
                        }
                    }
                    assert forall|k: int| 0 <= k < next.len() implies exists|h: int|
                        0 <= h < groups@.len() && (#[trigger] groups@[h]).base@ == (
                        #[trigger] next[k]).base@ by {
                        if k < i {
                            assert(seen[k] == next[k]);
                            let h = choose|h: int|
                                0 <= h < before.len() && (#[trigger] before[h]).base@
                                    == seen[k].base@;
                            assert(groups@[h].base@ == next[k].base@);
                        } else {
                            assert(groups@[g as int].base@ == next[k].base@);
                        }
                    }
                    assert forall|a: int, b: int, x: int, y: int|
                        0 <= a < b < groups@.len() && #[trigger] first_at(next, groups@[a].base@, x)
                            && #[trigger] first_at(next, groups@[b].base@, y) implies x < y by {
                        assert(groups@[a].base@ == before[a].base@);
                        assert(groups@[b].base@ == before[b].base@);
                        assert(first_at(seen, before[a].base@, x));
                        assert(first_at(seen, before[b].base@, y));
                    }
                }
            },
            None => {
                let mut locations: Vec<String> = Vec::new();
                locations.push(item.location.clone());
                let ghost group_base = item.base@;
                proof {
                    lemma_absent_store_has_no_locations(seen, before, group_base);
                    assert(texts(locations@) =~= Seq::<Seq<char>>::empty().push(item.location@));
                }
                groups.push(StoreGroup { base: item.base.clone(), locations });
                proof {
                    assert forall|h: int| 0 <= h < groups@.len() implies texts(
                        (#[trigger] groups@[h]).locations@,
                    ) == locations_of(next, groups@[h].base@) && groups@[h].locations@.len() > 0 by {
                        if h < before.len() {
                            assert(groups@[h] == before[h]);
                        }
                    }
                    assert forall|a: int, b: int|
                        0 <= a < groups@.len() && 0 <= b < groups@.len() && a != b implies (
                    #[trigger] groups@[a]).base@ != (#[trigger] groups@[b]).base@ by {
                        if a < before.len() {
                            assert(groups@[a] == before[a]);
                        }
                        if b < before.len() {
                            assert(groups@[b] == before[b]);
                        }
                    }
                    assert forall|k: int| 0 <= k < next.len() implies exists|h: int|
                        0 <= h < groups@.len() && (#[trigger] groups@[h]).base@ == (
                        #[trigger] next[k]).base@ by {
                        if k < i {
                            assert(seen[k] == next[k]);
                            let h = choose|h: int|
                                0 <= h < before.len() && (#[trigger] before[h]).base@
                                    == seen[k].base@;
                            assert(groups@[h] == before[h]);
                        } else {
                            assert(groups@[before.len() as int].base@ == next[k].base@);
                        }
                    }
                    assert forall|a: int, b: int, x: int, y: int|
                        0 <= a < b < groups@.len() && #[trigger] first_at(next, groups@[a].base@, x)
                            && #[trigger] first_at(next, groups@[b].base@, y) implies x < y by {
                        assert(groups@[a] == before[a]);
                        assert(first_at(seen, before[a].base@, x));
                        if b < before.len() {
                            assert(groups@[b] == before[b]);
                            assert(first_at(seen, before[b].base@, y));
                        } else {
                            // The new store occurs nowhere before the new place.
                            if y < i {
                                assert(seen[y] == next[y]);
                            }
                        }
                    }
                }
            },
        }
        i += 1;
    }
    proof {
        assert(items@.take(i as int) =~= items@);
    }
    groups
}

/// The store of a group occurs among the items that were grouped.
proof fn lemma_group_store_occurs(items: Seq<Located>, groups: Seq<StoreGroup>, g: int)
    requires
        grouped(items, groups),
        0 <= g < groups.len(),
    ensures
        exists|at: int| 0 <= at < items.len() && (#[trigger] items[at]).base@ == groups[g].base@,
{
    if forall|at: int| 0 <= at < items.len() ==> (#[trigger] items[at]).base@ != groups[g].base@ {
        lemma_no_match_no_locations(items, groups[g].base@);
        assert(texts(groups[g].locations@).len() == groups[g].locations@.len());
    }
}

/// A store that has no group among the groups of `items` has no location
/// among `items`.
proof fn lemma_absent_store_has_no_locations(
    items: Seq<Located>,
    groups: Seq<StoreGroup>,
    base: Seq<char>,
)
    requires
        grouped(items, groups),
        forall|h: int| 0 <= h < groups.len() ==> (#[trigger] groups[h]).base@ != base,
    ensures
        locations_of(items, base) == Seq::<Seq<char>>::empty(),
        forall|i: int| 0 <= i < items.len() ==> (#[trigger] items[i]).base@ != base,
{
    assert forall|i: int| 0 <= i < items.len() implies (#[trigger] items[i]).base@ != base by {
        let g = choose|g: int|
            0 <= g < groups.len() && (#[trigger] groups[g]).base@ == items[i].base@;
        assert(groups[g].base@ != base);
    }
    lemma_no_match_no_locations(items, base);
}

proof fn lemma_no_match_no_locations(items: Seq<Located>, base: Seq<char>)
    requires
        forall|i: int| 0 <= i < items.len() ==> (#[trigger] items[i]).base@ != base,
    ensures
        locations_of(items, base) == Seq::<Seq<char>>::empty(),
    decreases items.len(),
{
    if items.len() > 0 {
        assert forall|i: int| 0 <= i < items.drop_last().len() implies (
        #[trigger] items.drop_last()[i]).base@ != base by {
            assert(items.drop_last()[i] == items[i]);
        }
        lemma_no_match_no_locations(items.drop_last(), base);
        assert(items[items.len() - 1].base@ != base);
    }
}

} // verus!
