//! Releases on code-hosting sites, and the shape extensions see of them.
use vstd::prelude::*;

verus! {

#[derive(Debug, Clone)]
pub struct GitHubLspBinaryVersion {
    pub name: String,
    pub url: String,
    pub digest: Option<String>,
}

/// A release as the host's collaborator reports it.
#[derive(Debug, Clone)]
pub struct GithubRelease {
    pub tag_name: String,
    pub pre_release: bool,
    pub assets: Vec<GithubReleaseAsset>,
    pub tarball_url: String,
    pub zipball_url: String,
}

#[derive(Debug, Clone)]
pub struct GithubReleaseAsset {
    pub name: String,
    pub browser_download_url: String,
    pub digest: Option<String>,
}

/// A release as extensions see it.
#[derive(Debug, Clone)]
pub struct GuestRelease {
    pub version: String,
    pub assets: Vec<GuestReleaseAsset>,
}

#[derive(Debug, Clone)]
pub struct GuestReleaseAsset {
    pub name: String,
    pub download_url: String,
}

/// The release in the shape extensions see: the tag as the version, and
/// each asset's name and download address.
pub fn guest_release(release: &GithubRelease) -> (r: GuestRelease)
    ensures
        r.version@ == release.tag_name@,
        r.assets@.len() == release.assets@.len(),
        forall|i: int|
            0 <= i < r.assets@.len() ==> (#[trigger] r.assets@[i]).name@ == release.assets@[i].name@
                && r.assets@[i].download_url@ == release.assets@[i].browser_download_url@,
{
    let mut assets: Vec<GuestReleaseAsset> = Vec::new();
    let mut i: usize = 0;
    while i < release.assets.len()
        invariant
            i <= release.assets.len(),
            assets@.len() == i,
            forall|k: int|
                0 <= k < i ==> (#[trigger] assets@[k]).name@ == release.assets@[k].name@
                    && assets@[k].download_url@ == release.assets@[k].browser_download_url@,
        decreases release.assets.len() - i,
    {
        let a = &release.assets[i];
        assets.push(
            GuestReleaseAsset { name: a.name.clone(), download_url: a.browser_download_url.clone() },
        );
        i += 1;
    }
    GuestRelease { version: release.tag_name.clone(), assets }
}

} // verus!
