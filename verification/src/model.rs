//! The data model: author profiles, supplementary links, and the four
//! publication kinds, each carrying the shared citation fields plus its
//! kind-specific location fields.
use vstd::prelude::*;

verus! {

/// One author profile: a display name (the registry key) and a profile URL.
#[derive(Debug, Clone, PartialEq, Eq)]
pub struct Author {
    pub name: String,
    pub url: String,
}

/// A generic named link: rendered with `name` as its label.
#[derive(Debug, Clone, PartialEq, Eq)]
pub struct UrlLink {
    pub name: String,
    pub url: String,
}

/// A supplementary link attached to a publication.
#[derive(Debug, Clone, PartialEq, Eq)]
pub enum Link {
    /// A preprint identifier, rendered as a fixed-label arXiv link.
    Arxiv(String),
    /// A direct document URL, rendered with a fixed PDF label.
    Pdf(String),
    /// A generic named URL.
    Url(UrlLink),
}

/// A conference paper.
#[derive(Debug, Clone, PartialEq, Eq)]
pub struct InProceedings {
    pub authors: Vec<String>,
    pub title: String,
    pub booktitle: String,
    pub pages: Option<String>,
    pub year: u32,
    pub note: Option<String>,
    pub links: Vec<Link>,
}

/// A journal article.
#[derive(Debug, Clone, PartialEq, Eq)]
pub struct JournalArticle {
    pub authors: Vec<String>,
    pub title: String,
    pub journal: String,
    pub year: u32,
    pub volume: Option<i32>,
    pub number: Option<i32>,
    pub month: Option<String>,
    pub pages: Option<String>,
    pub note: Option<String>,
    pub links: Vec<Link>,
}

/// A master's thesis.
#[derive(Debug, Clone, PartialEq, Eq)]
pub struct MastersThesis {
    pub authors: Vec<String>,
    pub title: String,
    pub school: String,
    pub year: u32,
    pub note: Option<String>,
    pub links: Vec<Link>,
}

/// A technical report.
#[derive(Debug, Clone, PartialEq, Eq)]
pub struct TechnicalReport {
    pub authors: Vec<String>,
    pub title: String,
    pub institution: String,
    pub number: String,
    pub year: u32,
    pub note: Option<String>,
    pub links: Vec<Link>,
}

/// One publication record, of one of the four kinds.
#[derive(Debug, Clone, PartialEq, Eq)]
pub enum Publication {
    InProceedings(InProceedings),
    JournalArticle(JournalArticle),
    MastersThesis(MastersThesis),
    TechnicalReport(TechnicalReport),
}

/// The year a publication appeared, uniform over the four kinds; ordering
/// and grouping go by this value alone.
pub open spec fn year_of(p: Publication) -> u32 {
    match p {
        Publication::InProceedings(t) => t.year,
        Publication::JournalArticle(t) => t.year,
        Publication::MastersThesis(t) => t.year,
        Publication::TechnicalReport(t) => t.year,
    }
}

/// Everything with a publication year.
pub trait HasYear {
    /// The year, as the contracts speak of it.
    spec fn year_spec(&self) -> u32;

    /// The year, for ordering and grouping.
    fn get_year(&self) -> (y: u32)
        ensures
            y == self.year_spec(),
    ;
}

impl HasYear for InProceedings {
    open spec fn year_spec(&self) -> u32 {
        self.year
    }

    fn get_year(&self) -> u32 {
        self.year
    }
}

impl HasYear for JournalArticle {
    open spec fn year_spec(&self) -> u32 {
        self.year
    }

    fn get_year(&self) -> u32 {
        self.year
    }
}

impl HasYear for MastersThesis {
    open spec fn year_spec(&self) -> u32 {
        self.year
    }

    fn get_year(&self) -> u32 {
        self.year
    }
}

impl HasYear for TechnicalReport {
    open spec fn year_spec(&self) -> u32 {
        self.year
    }

    fn get_year(&self) -> u32 {
        self.year
    }
}

impl HasYear for Publication {
    open spec fn year_spec(&self) -> u32 {
        year_of(*self)
    }

    fn get_year(&self) -> u32 {
        match self {
            Publication::InProceedings(t) => t.year,
            Publication::JournalArticle(t) => t.year,
            Publication::MastersThesis(t) => t.year,
            Publication::TechnicalReport(t) => t.year,
        }
    }
}

} // verus!
