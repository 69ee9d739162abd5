//! The upstream catalogs of builds, read into one record type, and the choice of
//! a build for a requested version.

use vstd::prelude::*;
use crate::error::Error;
use crate::text::{
    chars_of, contains, contains_text, ends_with, ends_with_text, matches_at, same_text,
    starts_with,
};
use crate::version::{
    cpython_filename, is_compatible, Interpreter, parse_cpython_filename, parse_pypy_url, pypy_url, rendered,
    Version, PYPY_DOWNLOAD_URL,
};

verus! {

/// A concrete, downloadable interpreter build.
#[derive(Debug)]
pub struct Python {
    /// The file name of the archive.
    pub name: String,
    /// Where the archive is downloaded from.
    pub url: String,
    pub version: Version,
    /// The upstream build identifier, shown to users and never matched on.
    pub release_tag: String,
}

/// What a build record holds, as plain text and a version.
pub struct PythonView {
    pub name: Seq<char>,
    pub url: Seq<char>,
    pub version: Version,
    pub release_tag: Seq<char>,
}

impl View for Python {
    type V = PythonView;

    open spec fn view(&self) -> PythonView {
        PythonView {
            name: self.name@,
            url: self.url@,
            version: self.version,
            release_tag: self.release_tag@,
        }
    }
}

pub open spec fn python_views(ps: Seq<Python>) -> Seq<PythonView> {
    ps.map_values(|p: Python| p@)
}

/// One downloadable file of an upstream release.
#[derive(Debug)]
pub struct Asset {
    pub name: String,
    pub url: String,
}

/// An upstream release of the CPython builds: when it was created, in whole seconds
/// since the Unix epoch (if known), and its files.
#[derive(Debug)]
pub struct Release {
    pub created_at: Option<i64>,
    pub assets: Vec<Asset>,
}

/// 2022-02-26T00:00:00Z in seconds since the Unix epoch: only releases created
/// after it name their files in the way the listing reads.
pub const RELEASE_CUTOFF: i64 = 1645833600;

pub open spec fn is_recent(r: Release) -> bool {
    match r.created_at {
        Some(t) => t > RELEASE_CUTOFF,
        None => false,
    }
}

pub open spec fn asset_views(s: Seq<Asset>) -> Seq<(Seq<char>, Seq<char>)> {
    s.map_values(|a: Asset| (a.name@, a.url@))
}

/// The files of the recent releases among `rs` as (name, url), in order.
pub open spec fn recent_assets(rs: Seq<Release>) -> Seq<(Seq<char>, Seq<char>)>
    decreases rs.len(),
{
    if rs.len() == 0 {
        seq![]
    } else {
        recent_assets(rs.drop_last()) + if is_recent(rs.last()) {
            asset_views(rs.last().assets@)
        } else {
            seq![]
        }
    }
}

/// Whether a file is a build for `platform`, and not a checksum beside one.
pub open spec fn is_platform_build(name: Seq<char>, platform: Seq<char>) -> bool {
    !ends_with(name, ".sha256"@) && contains(name, platform)
}

/// The records that the files `assets` give for `platform`, in order; or the name
/// of the first build for the platform whose name does not parse.
pub open spec fn cpython_records(assets: Seq<(Seq<char>, Seq<char>)>, platform: Seq<char>) -> Result<
    Seq<PythonView>,
    Seq<char>,
>
    decreases assets.len(),
{
    if assets.len() == 0 {
        Ok(seq![])
    } else {
        let (name, url) = assets.last();
        match cpython_records(assets.drop_last(), platform) {
            Err(e) => Err(e),
            Ok(rs) => if !is_platform_build(name, platform) {
                Ok(rs)
            } else {
                match cpython_filename(name) {
                    None => Err(name),
                    Some((tag, v)) => Ok(
                        rs.push(PythonView { name, url, version: v, release_tag: tag }),
                    ),
                }
            },
        }
    }
}

/// Once a prefix of the files fails, the whole list fails the same way.
proof fn lemma_cpython_failure_stays(
    assets: Seq<(Seq<char>, Seq<char>)>,
    platform: Seq<char>,
    k: int,
    m: int,
)
    requires
        0 <= k <= m <= assets.len(),
        cpython_records(assets.take(k), platform) is Err,
    ensures
        cpython_records(assets.take(m), platform) == cpython_records(assets.take(k), platform),
    decreases m - k,
{
    if k < m {
        assert(assets.take(k + 1).drop_last() =~= assets.take(k));
        lemma_cpython_failure_stays(assets, platform, k + 1, m);
    }
}

pub open spec fn pair_views(s: Seq<(String, String)>) -> Seq<(Seq<char>, Seq<char>)> {
    s.map_values(|x: (String, String)| (x.0@, x.1@))
}

fn clone_text(s: &String) -> (r: String)
    ensures
        r@ == s@,
{
    s.clone()
}

/// The files of the recent releases, in order.
fn recent_asset_list(releases: &Vec<Release>) -> (r: Vec<(String, String)>)
    ensures
        pair_views(r@) == recent_assets(releases@),
{
    let mut out: Vec<(String, String)> = Vec::new();
    let mut i: usize = 0;
    while i < releases.len()
        invariant
            i <= releases@.len(),
            pair_views(out@) == recent_assets(
                releases@.take(i as int),
            ),
        decreases releases.len() - i,
    {
        let release = &releases[i];
        let ghost before = pair_views(out@);
        assert(releases@.take(i + 1).drop_last() =~= releases@.take(i as int));
        let recent = match release.created_at {
            Some(t) => t > RELEASE_CUTOFF,
            None => false,
        };
        if recent {
            let mut j: usize = 0;
            while j < release.assets.len()
                invariant
                    j <= release.assets@.len(),
                    pair_views(out@) == before + asset_views(
                        release.assets@.take(j as int),
                    ),
                decreases release.assets.len() - j,
            {
                let a = &release.assets[j];
                let ghost prev = out@;
                let pair = (clone_text(&a.name), clone_text(&a.url));
                out.push(pair);
                assert(pair_views(out@) =~= pair_views(prev).push((a.name@, a.url@)));
                assert(asset_views(release.assets@.take(j + 1)) =~= asset_views(
                    release.assets@.take(j as int),
                ).push((a.name@, a.url@)));
                assert(pair_views(out@) =~= before
                    + asset_views(release.assets@.take(j + 1)));
                j += 1;
            }
            assert(release.assets@.take(j as int) =~= release.assets@);
        } else {
            assert(before =~= before + Seq::<(Seq<char>, Seq<char>)>::empty());
        }
        i += 1;
    }
    assert(releases@.take(i as int) =~= releases@);
    out
}

/// Lists the CPython builds for `platform` that the releases `releases` offer:
/// the files of releases created after the cutoff, without checksum files, whose
/// names mention the platform, each read into a record. The first such name that
/// does not parse fails the whole listing.
pub fn select_cpython_releases(releases: &Vec<Release>, platform: &str) -> (r: Result<
    Vec<Python>,
    Error,
>)
    ensures
        match cpython_records(recent_assets(releases@), platform@) {
            Ok(rs) => r matches Ok(ps) && python_views(ps@) == rs,
            Err(name) => r matches Err(Error::ParseAsset(m)) && m@ == name,
        },
{
    let assets = recent_asset_list(releases);
    let ghost views = pair_views(assets@);
    let pc = chars_of(platform);
    let sha = chars_of(".sha256");
    let mut out: Vec<Python> = Vec::new();
    let mut j: usize = 0;
    assert(views.take(0) =~= Seq::<(Seq<char>, Seq<char>)>::empty());
    assert(python_views(out@) =~= Seq::<PythonView>::empty());
    while j < assets.len()
        invariant
            j <= assets@.len(),
            views == pair_views(assets@),
            views == recent_assets(releases@),
            pc@ == platform@,
            sha@ == ".sha256"@,
            cpython_records(views.take(j as int), platform@) == Ok::<
                Seq<PythonView>,
                Seq<char>,
            >(python_views(out@)),
        decreases assets.len() - j,
    {
        let name = &assets[j].0;
        let url = &assets[j].1;
        assert(views.take(j + 1).drop_last() =~= views.take(j as int));
        assert(views.take(j + 1).last() == (name@, url@));
        let nc = chars_of(name.as_str());
        if !ends_with_text(nc.as_slice(), sha.as_slice()) && contains_text(
            nc.as_slice(),
            pc.as_slice(),
        ) {
            match parse_cpython_filename(name.as_str()) {
                Ok((tag, v)) => {
                    let p = Python {
                        name: clone_text(name),
                        url: clone_text(url),
                        version: v,
                        release_tag: tag,
                    };
                    let ghost prev = out@;
                    out.push(p);
                    assert(python_views(out@) =~= python_views(prev).push(p@));
                },
                Err(e) => {
                    assert(cpython_records(views.take(j + 1), platform@) == Err::<
                        Seq<PythonView>,
                        Seq<char>,
                    >(name@));
                    proof {
                        lemma_cpython_failure_stays(views, platform@, j + 1, views.len() as int);
                        assert(views.take(views.len() as int) =~= views);
                    }
                    return Err(e);
                },
            }
        }
        j += 1;
    }
    assert(views.take(j as int) =~= views);
    Ok(out)
}

#[verifier::external_type_specification]
#[verifier::external_body]
pub struct ExUrlParseError(url::ParseError);

/// Whether `url` parses as an absolute URL.
pub uninterp spec fn url_parses(url: Seq<char>) -> bool;

/// Relies on `url::Url::parse`: succeeds exactly when the text is an absolute URL.
#[verifier::external_body]
fn check_url(url: &str) -> (r: Result<(), url::ParseError>)
    ensures
        r is Ok == url_parses(url@),
{
    url::Url::parse(url).map(|_| ())
}

/// The `href` of each element of the HTML document `html` that the CSS selector
/// `selector` matches, in the order in which the HTML parser created the elements
/// (document order, except where misnested markup made the parser move nodes);
/// absent when the selector does not parse.
pub uninterp spec fn selected_hrefs(html: Seq<char>, selector: Seq<char>) -> Option<
    Seq<Option<Seq<char>>>,
>;

pub open spec fn link_views(links: Seq<Option<String>>) -> Seq<Option<Seq<char>>> {
    links.map_values(
        |l: Option<String>|
            match l {
                Some(s) => Some(s@),
                None => None,
            },
    )
}

/// Relies on scraper's `Selector::parse`, `Html::parse_document`, `Html::select` and
/// `Element::attr`: the `href` of every element that the selector matches.
#[verifier::external_body]
fn select_hrefs(html: &str, selector: &str) -> (r: Option<Vec<Option<String>>>)
    ensures
        match r {
            Some(links) => selected_hrefs(html@, selector@) == Some(link_views(links@)),
            None => selected_hrefs(html@, selector@) is None,
        },
{
    let selector = scraper::Selector::parse(selector).ok()?;
    let document = scraper::Html::parse_document(html);
    Some(document.select(&selector).map(|a| a.value().attr("href").map(String::from)).collect())
}

/// Relies on `current_platform::CURRENT_PLATFORM`: the target triple the library was built for.
#[verifier::external_body]
fn host_platform() -> (r: String) {
    current_platform::CURRENT_PLATFORM.to_string()
}

/// The tag that PyPy download names use for a platform, by its target triple.
pub open spec fn pypy_tag(platform: Seq<char>) -> Option<Seq<char>> {
    if platform == "x86_64-unknown-linux-gnu"@ {
        Some("linux64"@)
    } else if platform == "x86_64-apple-darwin"@ {
        Some("macos_x86_64"@)
    } else if platform == "aarch64-unknown-linux-gnu"@ {
        Some("aarch64"@)
    } else if platform == "aarch64-apple-darwin"@ {
        Some("macos_arm64"@)
    } else {
        None
    }
}

/// The PyPy download tag for the platform with target triple `platform`.
pub fn platform_tag(platform: &str) -> (r: Result<String, Error>)
    ensures
        match pypy_tag(platform@) {
            Some(t) => r matches Ok(s) && s@ == t,
            None => r matches Err(Error::Platform(m)) && m@ == platform@,
        },
{
    let p = chars_of(platform);
    if same_text(p.as_slice(), chars_of("x86_64-unknown-linux-gnu").as_slice()) {
        Ok("linux64".to_string())
    } else if same_text(p.as_slice(), chars_of("x86_64-apple-darwin").as_slice()) {
        Ok("macos_x86_64".to_string())
    } else if same_text(p.as_slice(), chars_of("aarch64-unknown-linux-gnu").as_slice()) {
        Ok("aarch64".to_string())
    } else if same_text(p.as_slice(), chars_of("aarch64-apple-darwin").as_slice()) {
        Ok("macos_arm64".to_string())
    } else {
        Err(Error::Platform(platform.to_string()))
    }
}

/// The PyPy download tag for the platform this library was built for.
pub fn pypy_platform_tag() -> (r: Result<String, Error>)
    ensures
        r matches Ok(t) ==> exists|p: Seq<char>| pypy_tag(p) == Some(t@),
        r matches Err(e) ==> e is Platform,
{
    let platform = host_platform();
    platform_tag(platform.as_str())
}

/// Why a list of download links yields no records.
pub enum LinkFailure {
    /// A link has no target.
    NoHref,
    /// A download link for the platform does not read as a PyPy download.
    Unparsed(Seq<char>),
    /// A download link for the platform is not a valid URL.
    BadUrl,
}

/// Whether a link leads to a PyPy download for the platform tagged `tag`.
pub open spec fn is_platform_link(link: Seq<char>, tag: Seq<char>) -> bool {
    starts_with(link, PYPY_DOWNLOAD_URL@) && contains(link, tag)
}

/// The records that the links `links` of the download page give for the platform
/// tagged `tag`, in order, or why the first link that cannot be used fails.
pub open spec fn pypy_records(links: Seq<Option<Seq<char>>>, tag: Seq<char>) -> Result<
    Seq<PythonView>,
    LinkFailure,
>
    decreases links.len(),
{
    if links.len() == 0 {
        Ok(seq![])
    } else {
        match pypy_records(links.drop_last(), tag) {
            Err(e) => Err(e),
            Ok(rs) => match links.last() {
                None => Err(LinkFailure::NoHref),
                Some(link) => if !is_platform_link(link, tag) {
                    Ok(rs)
                } else {
                    match pypy_url(link) {
                        None => Err(LinkFailure::Unparsed(link)),
                        Some((name, release_tag, v)) => if !url_parses(link) {
                            Err(LinkFailure::BadUrl)
                        } else {
                            Ok(rs.push(PythonView { name, url: link, version: v, release_tag }))
                        },
                    }
                },
            },
        }
    }
}

/// Whether `r` is what the link listing `l` calls for.
pub open spec fn reports_links(r: Result<Vec<Python>, Error>, l: Result<Seq<PythonView>, LinkFailure>) -> bool {
    match l {
        Ok(rs) => r matches Ok(ps) && python_views(ps@) == rs,
        Err(LinkFailure::NoHref) => r matches Err(Error::Scraper(_)),
        Err(LinkFailure::Unparsed(link)) => r matches Err(Error::ParseAsset(m)) && m@ == link,
        Err(LinkFailure::BadUrl) => r matches Err(Error::Url(_)),
    }
}

proof fn lemma_pypy_failure_stays(links: Seq<Option<Seq<char>>>, tag: Seq<char>, k: int, m: int)
    requires
        0 <= k <= m <= links.len(),
        pypy_records(links.take(k), tag) is Err,
    ensures
        pypy_records(links.take(m), tag) == pypy_records(links.take(k), tag),
    decreases m - k,
{
    if k < m {
        assert(links.take(k + 1).drop_last() =~= links.take(k));
        lemma_pypy_failure_stays(links, tag, k + 1, m);
    }
}

/// Lists the PyPy builds that the download page links `links` offer for the
/// platform tagged `tag`: the links under the download prefix that mention the
/// tag, each read into a record. The first link that cannot be used fails the listing.
pub fn pypy_releases_from_links(links: &Vec<Option<String>>, tag: &str) -> (r: Result<
    Vec<Python>,
    Error,
>)
    ensures
        reports_links(r, pypy_records(link_views(links@), tag@)),
{
    let ghost views = link_views(links@);
    let tc = chars_of(tag);
    let prefix = chars_of(PYPY_DOWNLOAD_URL);
    let mut out: Vec<Python> = Vec::new();
    let mut j: usize = 0;
    assert(views.take(0) =~= Seq::<Option<Seq<char>>>::empty());
    assert(python_views(out@) =~= Seq::<PythonView>::empty());
    while j < links.len()
        invariant
            j <= links@.len(),
            views == link_views(links@),
            tc@ == tag@,
            prefix@ == PYPY_DOWNLOAD_URL@,
            pypy_records(views.take(j as int), tag@) == Ok::<Seq<PythonView>, LinkFailure>(
                python_views(out@),
            ),
        decreases links.len() - j,
    {
        assert(views.take(j + 1).drop_last() =~= views.take(j as int));
        assert(views.take(j + 1).last() == views[j as int]);
        let link = match &links[j] {
            Some(link) => link,
            None => {
                proof {
                    lemma_pypy_failure_stays(views, tag@, j + 1, views.len() as int);
                    assert(views.take(views.len() as int) =~= views);
                }
                return Err(
                    Error::Scraper("A download link of the PyPy page has no target.".to_string()),
                );
            },
        };
        let lc = chars_of(link.as_str());
        if matches_at(lc.as_slice(), prefix.as_slice(), 0) && contains_text(
            lc.as_slice(),
            tc.as_slice(),
        ) {
            let (name, release_tag, version) = match parse_pypy_url(link.as_str()) {
                Ok(x) => x,
                Err(e) => {
                    proof {
                        lemma_pypy_failure_stays(views, tag@, j + 1, views.len() as int);
                        assert(views.take(views.len() as int) =~= views);
                    }
                    return Err(e);
                },
            };
            match check_url(link.as_str()) {
                Ok(()) => {},
                Err(e) => {
                    proof {
                        lemma_pypy_failure_stays(views, tag@, j + 1, views.len() as int);
                        assert(views.take(views.len() as int) =~= views);
                    }
                    return Err(Error::Url(e));
                },
            }
            let p = Python { name, url: clone_text(link), version, release_tag };
            let ghost prev = out@;
            out.push(p);
            assert(python_views(out@) =~= python_views(prev).push(p@));
        }
        j += 1;
    }
    assert(views.take(j as int) =~= views);
    Ok(out)
}

/// The selector of the download links in the table of the PyPy download page.
pub const DOWNLOAD_TABLE_SELECTOR: &'static str = "table>tbody>tr>td>p>a";

/// Lists the PyPy builds for this platform that the download page `html` offers.
pub fn pypy_releases(html: &str) -> (r: Result<Vec<Python>, Error>)
    ensures
        match selected_hrefs(html@, DOWNLOAD_TABLE_SELECTOR@) {
            None => r matches Err(Error::Scraper(_)),
            Some(links) => r matches Err(Error::Platform(_)) || exists|p: Seq<char>|
                #[trigger] pypy_tag(p) is Some && reports_links(r, pypy_records(links, pypy_tag(p)->0)),
        },
{
    let links = match select_hrefs(html, DOWNLOAD_TABLE_SELECTOR) {
        Some(links) => links,
        None => {
            return Err(Error::Scraper("Could not find table of pypy downloads.".to_string()));
        },
    };
    let tag = match pypy_platform_tag() {
        Ok(tag) => tag,
        Err(e) => {
            return Err(e);
        },
    };
    let r = pypy_releases_from_links(&links, tag.as_str());
    assert(exists|p: Seq<char>| pypy_tag(p) == Some(tag@));
    r
}

/// Lists the CPython builds for this platform that the releases `releases` offer.
pub fn cpython_releases_from(releases: &Vec<Release>) -> (r: Result<Vec<Python>, Error>)
    ensures
        exists|platform: Seq<char>|
            match #[trigger] cpython_records(recent_assets(releases@), platform) {
                Ok(rs) => r matches Ok(ps) && python_views(ps@) == rs,
                Err(name) => r matches Err(Error::ParseAsset(m)) && m@ == name,
            },
{
    let platform = host_platform();
    let r = select_cpython_releases(releases, platform.as_str());
    assert(match cpython_records(recent_assets(releases@), platform@) {
        Ok(rs) => r matches Ok(ps) && python_views(ps@) == rs,
        Err(name) => r matches Err(Error::ParseAsset(m)) && m@ == name,
    });
    r
}

/// Where the builds of an interpreter family are listed.
#[derive(Debug, PartialEq, Eq, Structural, Clone, Copy)]
pub enum Catalog {
    /// The paginated release feed of the CPython builds.
    ReleaseFeed,
    /// The download page of PyPy.
    DownloadPage,
}

/// The catalog to search for a build of `interpreter`.
pub fn catalog_for(interpreter: Interpreter) -> (r: Catalog)
    ensures
        r == (match interpreter {
            Interpreter::CPython => Catalog::ReleaseFeed,
            Interpreter::PyPy => Catalog::DownloadPage,
        }),
{
    match interpreter {
        Interpreter::CPython => Catalog::ReleaseFeed,
        Interpreter::PyPy => Catalog::DownloadPage,
    }
}

/// The position of the first build at or after `i` in `cs` that satisfies `requested`.
pub open spec fn first_compatible(requested: Version, cs: Seq<PythonView>, i: int) -> Option<int>
    decreases cs.len() - i,
{
    if i < 0 || i >= cs.len() {
        None
    } else if is_compatible(requested, cs[i].version) {
        Some(i)
    } else {
        first_compatible(requested, cs, i + 1)
    }
}

proof fn lemma_first_compatible(requested: Version, cs: Seq<PythonView>, i: int)
    requires
        0 <= i,
    ensures
        match first_compatible(requested, cs, i) {
            Some(k) => i <= k < cs.len() && is_compatible(requested, cs[k].version) && forall|
                j: int,
            | i <= j < k ==> !is_compatible(requested, #[trigger] cs[j].version),
            None => forall|j: int| i <= j < cs.len() ==> !is_compatible(requested, #[trigger] cs[j].version),
        },
    decreases cs.len() - i,
{
    if i < cs.len() && !is_compatible(requested, cs[i].version) {
        lemma_first_compatible(requested, cs, i + 1);
    }
}

/// Chooses the build for `requested`: the first candidate, in catalog order, that
/// is compatible with it.
pub fn resolve(requested: &Version, candidates: Vec<Python>) -> (r: Result<Python, Error>)
    ensures
        match first_compatible(*requested, python_views(candidates@), 0) {
            Some(i) => r matches Ok(p) && p@ == candidates@[i]@,
            None => r matches Err(Error::VersionNotFound(m)) && m@ == rendered(*requested),
        },
{
    let ghost views = python_views(candidates@);
    let ghost listed = candidates@;
    let mut pool = candidates;
    let mut i: usize = 0;
    while i < pool.len()
        invariant
            i <= pool@.len(),
            views == python_views(pool@),
            listed == pool@,
            listed == candidates@,
            first_compatible(*requested, views, 0) == first_compatible(*requested, views, i as int),
        decreases pool.len() - i,
    {
        if requested.compatible(&pool[i].version) {
            assert(views[i as int] == pool@[i as int]@);
            assert(first_compatible(*requested, views, i as int) == Some(i as int));
            let chosen = pool.remove(i);
            assert(chosen@ == listed[i as int]@);
            return Ok(chosen);
        }
        i += 1;
    }
    Err(Error::VersionNotFound(requested.to_string()))
}

/// Catalog order decides between compatible builds: a compatible build that
/// comes later is never chosen over an earlier one.
pub proof fn lemma_resolve_keeps_catalog_order(
    requested: Version,
    cs: Seq<PythonView>,
    i: int,
    j: int,
)
    requires
        0 <= i < j < cs.len(),
        is_compatible(requested, cs[i].version),
        is_compatible(requested, cs[j].version),
    ensures
        first_compatible(requested, cs, 0) matches Some(k) && k <= i,
{
    lemma_first_compatible(requested, cs, 0);
}

} // verus!
