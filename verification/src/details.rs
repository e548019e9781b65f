//! What the remote service tells of a package and of one of its files.

use vstd::prelude::*;
use vstd::string::*;

verus! {

/// What the remote service tells of a package.
#[derive(Clone, Debug)]
pub struct ModDetails {
    pub name: String,
    pub summary: Option<String>,
    pub description: Option<String>,
    pub picture_url: Option<String>,
    pub mod_downloads: u64,
    pub mod_unique_downloads: u64,
    pub uid: u64,
    pub mod_id: u64,
    pub game_id: u64,
    pub allow_rating: bool,
    pub domain_name: String,
    pub category_id: u64,
    pub version: String,
    pub endorsement_count: u64,
    pub created_timestamp: u64,
    pub created_time: String,
    pub updated_timestamp: u64,
    pub updated_time: String,
    pub author: String,
    pub uploaded_by: String,
    pub uploaded_users_profile_url: String,
    pub contains_adult_content: bool,
    pub status: String,
    pub available: bool,
    pub user: String,
    pub endorsement: String,
}

/// Package details as plain values.
pub ghost struct ModDetailsView {
    pub name: Seq<char>,
    pub summary: Option<Seq<char>>,
    pub description: Option<Seq<char>>,
    pub picture_url: Option<Seq<char>>,
    pub mod_downloads: u64,
    pub mod_unique_downloads: u64,
    pub uid: u64,
    pub mod_id: u64,
    pub game_id: u64,
    pub allow_rating: bool,
    pub domain_name: Seq<char>,
    pub category_id: u64,
    pub version: Seq<char>,
    pub endorsement_count: u64,
    pub created_timestamp: u64,
    pub created_time: Seq<char>,
    pub updated_timestamp: u64,
    pub updated_time: Seq<char>,
    pub author: Seq<char>,
    pub uploaded_by: Seq<char>,
    pub uploaded_users_profile_url: Seq<char>,
    pub contains_adult_content: bool,
    pub status: Seq<char>,
    pub available: bool,
    pub user: Seq<char>,
    pub endorsement: Seq<char>,
}

impl View for ModDetails {
    type V = ModDetailsView;

    open spec fn view(&self) -> ModDetailsView {
        ModDetailsView {
            name: self.name@,
            summary: text_view(self.summary),
            description: text_view(self.description),
            picture_url: text_view(self.picture_url),
            mod_downloads: self.mod_downloads,
            mod_unique_downloads: self.mod_unique_downloads,
            uid: self.uid,
            mod_id: self.mod_id,
            game_id: self.game_id,
            allow_rating: self.allow_rating,
            domain_name: self.domain_name@,
            category_id: self.category_id,
            version: self.version@,
            endorsement_count: self.endorsement_count,
            created_timestamp: self.created_timestamp,
            created_time: self.created_time@,
            updated_timestamp: self.updated_timestamp,
            updated_time: self.updated_time@,
            author: self.author@,
            uploaded_by: self.uploaded_by@,
            uploaded_users_profile_url: self.uploaded_users_profile_url@,
            contains_adult_content: self.contains_adult_content,
            status: self.status@,
            available: self.available,
            user: self.user@,
            endorsement: self.endorsement@,
        }
    }
}

/// The details that tell nothing.
pub open spec fn blank_details() -> ModDetailsView {
    ModDetailsView {
        name: Seq::empty(),
        summary: None,
        description: None,
        picture_url: None,
        mod_downloads: 0,
        mod_unique_downloads: 0,
        uid: 0,
        mod_id: 0,
        game_id: 0,
        allow_rating: false,
        domain_name: Seq::empty(),
        category_id: 0,
        version: Seq::empty(),
        endorsement_count: 0,
        created_timestamp: 0,
        created_time: Seq::empty(),
        updated_timestamp: 0,
        updated_time: Seq::empty(),
        author: Seq::empty(),
        uploaded_by: Seq::empty(),
        uploaded_users_profile_url: Seq::empty(),
        contains_adult_content: false,
        status: Seq::empty(),
        available: false,
        user: Seq::empty(),
        endorsement: Seq::empty(),
    }
}

impl Default for ModDetails {
    /// Details that tell nothing: every text empty, every number 0, every
    /// switch off, nothing given of what may be missing.
    fn default() -> (r: Self)
        ensures
            r@ == blank_details(),
    {
        ModDetails {
            name: String::new(),
            summary: None,
            description: None,
            picture_url: None,
            mod_downloads: 0,
            mod_unique_downloads: 0,
            uid: 0,
            mod_id: 0,
            game_id: 0,
            allow_rating: false,
            domain_name: String::new(),
            category_id: 0,
            version: String::new(),
            endorsement_count: 0,
            created_timestamp: 0,
            created_time: String::new(),
            updated_timestamp: 0,
            updated_time: String::new(),
            author: String::new(),
            uploaded_by: String::new(),
            uploaded_users_profile_url: String::new(),
            contains_adult_content: false,
            status: String::new(),
            available: false,
            user: String::new(),
            endorsement: String::new(),
        }
    }
}

/// What the remote service tells of one file of a package. The service may
/// leave any of it out.
#[derive(Clone, Debug)]
pub struct ModFileDetails {
    pub version: Option<String>,
    pub file_id: Option<u64>,
    pub file_name: Option<String>,
}

/// A text that may be missing, as plain values.
pub open spec fn text_view(text: Option<String>) -> Option<Seq<char>> {
    match text {
        Some(t) => Some(t@),
        None => None,
    }
}

/// File details as plain values.
pub ghost struct FileDetailsView {
    pub version: Option<Seq<char>>,
    pub file_id: Option<u64>,
    pub file_name: Option<Seq<char>>,
}

impl View for ModFileDetails {
    type V = FileDetailsView;

    open spec fn view(&self) -> FileDetailsView {
        FileDetailsView {
            version: text_view(self.version),
            file_id: self.file_id,
            file_name: text_view(self.file_name),
        }
    }
}

/// The version that file details give, or `"0"` where they give none.
pub open spec fn version_or_default(version: Option<Seq<char>>) -> Seq<char> {
    match version {
        Some(v) => v,
        None => "0"@,
    }
}

/// The version that `file` gives, or `"0"` where it gives none.
pub fn resolved_version(file: &ModFileDetails) -> (v: String)
    ensures
        v@ == version_or_default(file@.version),
{
    match &file.version {
        Some(v) => v.clone(),
        None => String::from_str("0"),
    }
}

} // verus!
