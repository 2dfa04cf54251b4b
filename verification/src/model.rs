use vstd::prelude::*;

verus! {

/// A manifest source registered in the datastore: an identifier and the URL
/// of the data file it publishes.
pub struct Foundation {
    pub foundation_id: String,
    pub data_url: String,
}

/// Mathematical image of a `Foundation`.
pub ghost struct FoundationView {
    pub foundation_id: Seq<char>,
    pub data_url: Seq<char>,
}

impl View for Foundation {
    type V = FoundationView;

    open spec fn view(&self) -> FoundationView {
        FoundationView { foundation_id: self.foundation_id@, data_url: self.data_url@ }
    }
}

/// A project's repository. The order of `check_sets` is meaningful and must
/// survive digesting.
pub struct Repository {
    pub name: String,
    pub url: String,
    pub check_sets: Vec<String>,
}

/// Mathematical image of a `Repository`.
#[verifier::ext_equal]
pub ghost struct RepositoryView {
    pub name: Seq<char>,
    pub url: Seq<char>,
    pub check_sets: Seq<Seq<char>>,
}

impl View for Repository {
    type V = RepositoryView;

    open spec fn view(&self) -> RepositoryView {
        RepositoryView {
            name: self.name@,
            url: self.url@,
            check_sets: self.check_sets@.map_values(|s: String| s@),
        }
    }
}

/// The image of an optional string.
pub open spec fn opt_view(o: Option<String>) -> Option<Seq<char>> {
    match o {
        Some(s) => Some(s@),
        None => None,
    }
}

/// A project candidate taken from a foundation's manifest. `digest` is a
/// content hash over every other field, filled in after parsing; the
/// manifest itself never carries one.
pub struct Project {
    pub name: String,
    pub display_name: Option<String>,
    pub description: String,
    pub category: String,
    pub home_url: Option<String>,
    pub logo_url: Option<String>,
    pub logo_dark_url: Option<String>,
    pub devstats_url: Option<String>,
    pub accepted_at: Option<String>,
    pub maturity: String,
    pub digest: Option<String>,
    pub repositories: Vec<Repository>,
}

/// Mathematical image of a `Project`.
#[verifier::ext_equal]
pub ghost struct ProjectView {
    pub name: Seq<char>,
    pub display_name: Option<Seq<char>>,
    pub description: Seq<char>,
    pub category: Seq<char>,
    pub home_url: Option<Seq<char>>,
    pub logo_url: Option<Seq<char>>,
    pub logo_dark_url: Option<Seq<char>>,
    pub devstats_url: Option<Seq<char>>,
    pub accepted_at: Option<Seq<char>>,
    pub maturity: Seq<char>,
    pub digest: Option<Seq<char>>,
    pub repositories: Seq<RepositoryView>,
}

impl View for Project {
    type V = ProjectView;

    open spec fn view(&self) -> ProjectView {
        ProjectView {
            name: self.name@,
            display_name: opt_view(self.display_name),
            description: self.description@,
            category: self.category@,
            home_url: opt_view(self.home_url),
            logo_url: opt_view(self.logo_url),
            logo_dark_url: opt_view(self.logo_dark_url),
            devstats_url: opt_view(self.devstats_url),
            accepted_at: opt_view(self.accepted_at),
            maturity: self.maturity@,
            digest: opt_view(self.digest),
            repositories: self.repositories@.map_values(|r: Repository| r@),
        }
    }
}

/// Two project records carry the same content when every field other than
/// the digest agrees. The digest is computed over exactly this content.
pub open spec fn same_content(a: ProjectView, b: ProjectView) -> bool {
    &&& a.name == b.name
    &&& a.display_name == b.display_name
    &&& a.description == b.description
    &&& a.category == b.category
    &&& a.home_url == b.home_url
    &&& a.logo_url == b.logo_url
    &&& a.logo_dark_url == b.logo_dark_url
    &&& a.devstats_url == b.devstats_url
    &&& a.accepted_at == b.accepted_at
    &&& a.maturity == b.maturity
    &&& a.repositories == b.repositories
}

} // verus!
