//! The records the launcher keeps and exchanges with the store's services.
//! Maps keyed by name are held as lists of pairs, in the order they were read.

use vstd::prelude::*;

verus! {

/// Paths found for a game on the game's detail page.
#[derive(Debug, Clone, Default, PartialEq, Eq)]
pub struct AdvancedInfo {
    pub app_name: String,
    pub save_path: Option<String>,
    pub backup_path: Option<String>,
    pub prefix_path: Option<String>,
    pub dlss_path: Option<String>,
    pub dlssd_path: Option<String>,
}

/// The screens of the launcher.
#[derive(Debug, Clone, Copy, PartialEq, Eq, Structural)]
pub enum Screen {
    Auth,
    Library,
    GameDetail,
    Settings,
    SaveSync,
    InstallDialog,
    Tasks,
    Account,
    EosOverlay,
}

/// A title the account owns, with the pieces of its metadata the launcher
/// reads: its title, and the extra command line for titles launched
/// elsewhere.
#[derive(Debug, Clone, PartialEq, Eq)]
pub struct LibraryItem {
    pub app_name: String,
    pub catalog_item_id: String,
    pub namespace: String,
    pub title: Option<String>,
    pub additional_command_line: Option<String>,
}

/// One page of the library.
#[derive(Debug, Clone, PartialEq, Eq)]
pub struct LibraryResponse {
    pub records: Vec<LibraryItem>,
    pub response_metadata: ResponseMetadata,
}

#[derive(Debug, Clone, PartialEq, Eq)]
pub struct ResponseMetadata {
    pub next_cursor: Option<String>,
}

/// A session with the account service.
#[derive(Debug, Clone, PartialEq, Eq)]
pub struct OAuthToken {
    pub access_token: String,
    pub expires_in: i32,
    pub expires_at: String,
    pub token_type: String,
    pub refresh_token: Option<String>,
    pub refresh_expires: Option<i32>,
    pub refresh_expires_at: Option<String>,
    pub account_id: String,
    pub client_id: String,
    pub internal_client: bool,
    pub client_service: String,
    pub display_name: Option<String>,
    pub app: String,
    pub in_app_id: String,
    pub device_id: String,
}

/// A build of a title for a platform.
#[derive(Debug, Clone, PartialEq, Eq)]
pub struct Asset {
    pub app_name: String,
    pub catalog_item_id: String,
    pub namespace: String,
    pub asset_id: String,
    pub build_version: String,
    pub label_name: String,
}

/// The catalog's entry for a title.
#[derive(Debug, Clone, PartialEq, Eq)]
pub struct GameInfo {
    pub id: String,
    pub title: String,
    pub description: Option<String>,
    pub key_images: Vec<KeyImage>,
    pub namespace: String,
    pub custom_attributes: Option<Vec<(String, CustomAttribute)>>,
    pub partner_link_type: Option<String>,
    pub eula_ids: Option<Vec<String>>,
    pub dlc_item_list: Vec<DlcItem>,
}

#[derive(Debug, Clone, PartialEq, Eq)]
pub struct KeyImage {
    pub url: String,
    pub image_type: String,
    pub md5: Option<String>,
}

/// A title installed on this machine.
#[derive(Debug, Clone, PartialEq, Eq)]
pub struct InstalledGame {
    pub app_name: String,
    pub install_path: String,
    pub title: String,
    pub version: String,
    pub executable: String,
    pub install_size: u64,
    pub download_size: u64,
    pub platform: String,
    pub manifest_path: Option<String>,
}

/// What the install dialog shows before an installation.
#[derive(Debug, Clone, PartialEq, Eq)]
pub struct InstallInfo {
    pub app_name: String,
    pub title: String,
    pub install_path: String,
    pub download_size: u64,
    pub install_size: u64,
    pub free_space: u64,
    pub available_tags: Vec<String>,
}

/// Metadata kept on disk for a title.
#[derive(Debug, Clone, PartialEq, Eq)]
pub struct LocalGameMetadata {
    pub app_name: String,
    pub app_title: String,
    pub metadata: LocalMetadataDetails,
}

#[derive(Debug, Clone, Default, PartialEq, Eq)]
pub struct LocalMetadataDetails {
    pub id: String,
    pub namespace: String,
    pub deployment_id: Option<String>,
    pub developer: Option<String>,
    pub key_images: Vec<KeyImage>,
    pub dlc_item_list: Option<Vec<DlcItem>>,
    pub custom_attributes: Option<Vec<(String, CustomAttribute)>>,
    pub release_info: Option<Vec<ReleaseInfo>>,
}

#[derive(Debug, Clone, PartialEq, Eq)]
pub struct DlcItem {
    pub title: String,
    pub id: String,
}

#[derive(Debug, Clone, PartialEq, Eq)]
pub struct CustomAttribute {
    pub value: String,
}

#[derive(Debug, Clone, PartialEq, Eq)]
pub struct ReleaseInfo {
    pub app_id: String,
    pub platform: Vec<String>,
}

/// A file of the cloud-save store.
#[derive(Debug, Clone, PartialEq, Eq)]
pub struct CloudSaveFile {
    pub app_name: String,
    pub file_name: String,
    pub manifest_name: String,
    pub hash: String,
    pub length: u64,
    pub last_modified: Option<String>,
    pub read_link: Option<String>,
    pub write_link: Option<String>,
}

pub struct CloudSaveFileView {
    pub app_name: Seq<char>,
    pub file_name: Seq<char>,
    pub manifest_name: Seq<char>,
    pub hash: Seq<char>,
    pub length: u64,
    pub last_modified: Option<Seq<char>>,
    pub read_link: Option<Seq<char>>,
    pub write_link: Option<Seq<char>>,
}

/// The text an optional string holds.
pub open spec fn opt_view(o: Option<String>) -> Option<Seq<char>> {
    match o {
        Some(s) => Some(s@),
        None => None,
    }
}

impl View for CloudSaveFile {
    type V = CloudSaveFileView;

    open spec fn view(&self) -> CloudSaveFileView {
        CloudSaveFileView {
            app_name: self.app_name@,
            file_name: self.file_name@,
            manifest_name: self.manifest_name@,
            hash: self.hash@,
            length: self.length,
            last_modified: opt_view(self.last_modified),
            read_link: opt_view(self.read_link),
            write_link: opt_view(self.write_link),
        }
    }
}

/// A copy of an optional string.
pub fn copy_opt(o: &Option<String>) -> (r: Option<String>)
    ensures
        opt_view(r) == opt_view(*o),
{
    match o {
        Some(s) => Some(s.clone()),
        None => None,
    }
}

impl CloudSaveFile {
    /// A copy of the record.
    pub fn copy(&self) -> (r: CloudSaveFile)
        ensures
            r@ == self@,
    {
        CloudSaveFile {
            app_name: self.app_name.clone(),
            file_name: self.file_name.clone(),
            manifest_name: self.manifest_name.clone(),
            hash: self.hash.clone(),
            length: self.length,
            last_modified: copy_opt(&self.last_modified),
            read_link: copy_opt(&self.read_link),
            write_link: copy_opt(&self.write_link),
        }
    }
}

/// The cloud-save store's answer: each file under its path.
#[derive(Debug, Clone, PartialEq, Eq)]
pub struct CloudSaveResponse {
    pub files: Vec<(String, CloudSaveFile)>,
}

/// What the save-sync page shows of a title: its cloud save files and when
/// the local, cloud and backup saves were last changed, each an instant in
/// whole seconds and nanoseconds since the Unix epoch.
#[derive(Debug, Clone, PartialEq, Eq)]
pub struct SaveSyncStatus {
    pub app_name: String,
    pub files: Vec<CloudSaveFile>,
    pub local_time: Option<(i64, u32)>,
    pub remote_time: Option<(i64, u32)>,
    pub backup_time: Option<(i64, u32)>,
    pub loading: bool,
    pub error: Option<String>,
}

#[derive(Debug, Clone, PartialEq, Eq)]
pub struct Entitlement {
    pub entitlement_id: String,
    pub entitlement_name: String,
    pub namespace: String,
    pub catalog_item_id: String,
    pub account_id: String,
    pub identity_id: String,
    pub entitlement_type: String,
    pub grant_date: String,
}

#[derive(Debug, Clone, PartialEq, Eq)]
pub struct DownloadTicket {
    pub manifest_url: String,
}

/// The value a list of custom attributes gives for `key`: that of the last
/// entry under the key, as a map read in order keeps it.
pub open spec fn attribute_value(attrs: Seq<(Seq<char>, Seq<char>)>, key: Seq<char>) -> Option<Seq<char>>
    decreases attrs.len(),
{
    if attrs.len() == 0 {
        None
    } else if attrs.last().0 == key {
        Some(attrs.last().1)
    } else {
        attribute_value(attrs.drop_last(), key)
    }
}

/// The attributes as pairs of texts.
pub open spec fn attribute_pairs(attrs: Seq<(String, CustomAttribute)>) -> Seq<(Seq<char>, Seq<char>)> {
    attrs.map_values(|a: (String, CustomAttribute)| (a.0@, a.1.value@))
}

/// The value of the custom attribute `key`, if the attributes are there and
/// hold it.
pub open spec fn spec_custom_attribute(attrs: Option<Seq<(String, CustomAttribute)>>, key: Seq<char>) -> Option<Seq<char>> {
    match attrs {
        Some(a) => attribute_value(attribute_pairs(a), key),
        None => None,
    }
}

/// Looks up a custom attribute by key.
pub fn custom_attribute(attrs: &Option<Vec<(String, CustomAttribute)>>, key: &str) -> (r: Option<String>)
    ensures
        match (r, spec_custom_attribute(
            match attrs {
                Some(a) => Some(a@),
                None => None,
            },
            key@,
        )) {
            (Some(x), Some(y)) => x@ == y,
            (None, None) => true,
            _ => false,
        },
{
    match attrs {
        None => None,
        Some(a) => {
            let ghost pairs = attribute_pairs(a@);
            let mut i: usize = a.len();
            assert(pairs.take(i as int) =~= pairs);
            while i > 0
                invariant
                    i <= a@.len(),
                    *attrs == Some(*a),
                    pairs == attribute_pairs(a@),
                    attribute_value(pairs, key@) == attribute_value(pairs.take(i as int), key@),
                decreases i,
            {
                let k = i - 1;
                assert(pairs.take(i as int).drop_last() =~= pairs.take(k as int));
                assert(pairs.take(i as int).last() == pairs[k as int]);
                assert(pairs[k as int] == (a@[k as int].0@, a@[k as int].1.value@));
                if crate::text::str_equal(a[k].0.as_str(), key) {
                    let v = a[k].1.value.clone();
                    assert(v@ == pairs[k as int].1);
                    assert(attribute_value(pairs.take(i as int), key@) == Some(v@));

                    return Some(v);
                }
                i = k;
            }
            None
        },
    }
}

/// The platform an installed title is taken to be for when none is recorded.
pub fn default_platform() -> (r: String)
    ensures
        r@ == "Windows"@,
{
    String::from_str("Windows")
}

/// Whether `v`, lower-cased, reads `true`.
pub open spec fn is_true_flag(v: Seq<char>) -> bool {
    crate::text::lowercase(v) == "true"@
}

/// Tests a flag attribute's text as the launcher does: lower-cased, equal to `true`.
pub fn is_true_text(v: &str) -> (r: bool)
    ensures
        r == is_true_flag(v@),
{
    let l = crate::text::to_lowercase(v);
    crate::text::str_equal(l.as_str(), "true")
}

} // verus!
