//! Whether a guest image must be fetched before it is read.

use vstd::prelude::*;

verus! {

/// What to do so that a guest image can be read from its path.
#[derive(Clone, Debug)]
pub enum Acquisition {
    /// The file is there: read it.
    Present,
    /// Fetch the image from this URL once, write it to the path, then read it.
    Fetch(String),
    /// The file is absent and may not be fetched: the build fails.
    Missing,
}

/// Decides how a guest image is acquired: nothing to do where its file exists;
/// one fetch where it is absent, a URL is configured and downloads are allowed;
/// otherwise a fatal "missing guest" with no network access.
pub fn plan_acquisition(exists: bool, url: &Option<String>, no_downloads: bool) -> (r: Acquisition)
    ensures
        exists ==> r is Present,
        !exists && url is Some && !no_downloads ==> (r matches Acquisition::Fetch(u) && u@
            == url->0@),
        !exists && (url is None || no_downloads) ==> r is Missing,
{
    if exists {
        Acquisition::Present
    } else {
        match url {
            Some(u) => {
                if no_downloads {
                    Acquisition::Missing
                } else {
                    Acquisition::Fetch(u.clone())
                }
            },
            None => Acquisition::Missing,
        }
    }
}

} // verus!
