//! Release assets as published on GitHub: which asset holds the image and
//! which its digest. Fetching them is left to the caller.
use vstd::prelude::*;
use vstd::string::{StringExecFns, StringSliceAdditionalSpecFns};
use vstd::utf8::encode_utf8;

use crate::hexcode::bytes_equal;

verus! {

/// An asset that can be downloaded.
#[derive(Clone, Debug)]
pub struct AssetSpec {
    pub name: String,
    pub url: String,
    pub len: usize,
}

/// A release: its tag and its assets.
#[derive(Clone, Debug)]
pub struct Release {
    pub tag: String,
    pub assets: Vec<AssetSpec>,
}

/// The name of a release's asset with an extension: `solo2-firmware-{tag}.{extension}`.
pub open spec fn asset_name_spec(tag: Seq<char>, extension: Seq<char>) -> Seq<char> {
    "solo2-firmware-"@ + tag + "."@ + extension
}

/// Extension of the firmware image asset.
pub const IMAGE_EXTENSION: &'static str = "sb2";

/// Extension of the asset holding the image's SHA-256 digest.
pub const DIGEST_EXTENSION: &'static str = "sha2";

impl Release {
    /// The name of this release's asset with an extension.
    pub fn asset_name(&self, extension: &str) -> (r: String)
        ensures
            r@ == asset_name_spec(self.tag@, extension@),
    {
        let mut name = String::from_str("solo2-firmware-");
        name.append(self.tag.as_str());
        name.append(".");
        name.append(extension);
        name
    }

    /// The first asset whose name is `name`, byte for byte.
    pub fn find_asset(&self, name: &str) -> (r: Option<&AssetSpec>)
        ensures
            r matches Some(a) ==> exists|i: int|
                0 <= i < self.assets@.len() && self.assets@[i] == *a
                    && encode_utf8(a.name@) == name.spec_bytes(),
            r is None ==> forall|i: int|
                0 <= i < self.assets@.len() ==> encode_utf8((#[trigger] self.assets@[i]).name@)
                    != name.spec_bytes(),
    {
        let mut i: usize = 0;
        while i < self.assets.len()
            invariant
                i <= self.assets@.len(),
                forall|j: int|
                    0 <= j < i ==> encode_utf8((#[trigger] self.assets@[j]).name@)
                        != name.spec_bytes(),
            decreases self.assets@.len() - i,
        {
            let asset = &self.assets[i];
            if bytes_equal(asset.name.as_str().as_bytes(), name.as_bytes()) {
                return Some(asset);
            }
            i = i + 1;
        }
        None
    }

    /// The asset holding the firmware image.
    pub fn image_asset(&self) -> (r: Option<&AssetSpec>)
        ensures
            r matches Some(a) ==> exists|i: int|
                0 <= i < self.assets@.len() && self.assets@[i] == *a && encode_utf8(a.name@)
                    == encode_utf8(asset_name_spec(self.tag@, "sb2"@)),
            r is None ==> forall|i: int|
                0 <= i < self.assets@.len() ==> encode_utf8((#[trigger] self.assets@[i]).name@)
                    != encode_utf8(asset_name_spec(self.tag@, "sb2"@)),
    {
        let name = self.asset_name(IMAGE_EXTENSION);
        self.find_asset(name.as_str())
    }

    /// The asset holding the image's digest.
    pub fn digest_asset(&self) -> (r: Option<&AssetSpec>)
        ensures
            r matches Some(a) ==> exists|i: int|
                0 <= i < self.assets@.len() && self.assets@[i] == *a && encode_utf8(a.name@)
                    == encode_utf8(asset_name_spec(self.tag@, "sha2"@)),
            r is None ==> forall|i: int|
                0 <= i < self.assets@.len() ==> encode_utf8((#[trigger] self.assets@[i]).name@)
                    != encode_utf8(asset_name_spec(self.tag@, "sha2"@)),
    {
        let name = self.asset_name(DIGEST_EXTENSION);
        self.find_asset(name.as_str())
    }
}

/// Whether a download is complete: as long as the asset announced.
pub fn is_complete_download(asset: &AssetSpec, data: &[u8]) -> (r: bool)
    ensures
        r == (data@.len() == asset.len),
{
    data.len() == asset.len
}

} // verus!
