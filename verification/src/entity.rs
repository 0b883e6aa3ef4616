//! A plain-data model of the entity store: what the list logic reads of an
//! entity (labels, descriptions, sitelinks, claims) and the lookups on it.

use vstd::prelude::*;
use vstd::string::*;
use crate::text::{copy_str, first_where, lemma_first_where, str_eq};

verus! {

/// A text in one language.
#[derive(Debug, Clone)]
pub struct LocalizedText {
    pub language: String,
    pub text: String,
}

/// The page that an entity has on one wiki.
#[derive(Debug, Clone)]
pub struct SiteLink {
    pub site: String,
    pub title: String,
}

/// A point on the globe; each coordinate is kept in decimal notation.
#[derive(Debug, Clone)]
pub struct LatLon {
    pub lat: String,
    pub lon: String,
}

impl LatLon {
    /// A point by its latitude and longitude in decimal notation.
    pub fn new(lat: String, lon: String) -> (r: Self)
        ensures
            r.lat@ == lat@,
            r.lon@ == lon@,
    {
        Self { lat, lon }
    }
}

/// A point in time as the entity store writes it, with its precision
/// (6 millennium, 7 century, 8 decade, 9 year, 10 month, 11 day).
#[derive(Debug, Clone)]
pub struct TimeValue {
    pub time: String,
    pub precision: u64,
}

/// The declared datatype of a property or snak.
#[derive(Debug, Clone, Copy, PartialEq, Eq, Structural)]
pub enum SnakDataType {
    Time,
    WikibaseItem,
    WikibaseProperty,
    String,
    ExternalId,
    GlobeCoordinate,
    MonolingualText,
    Quantity,
    Url,
    CommonsMedia,
    Other,
}

/// The value of a snak.
#[derive(Debug, Clone)]
pub enum SnakValue {
    /// A reference to another entity, by identifier.
    Entity(String),
    StringValue(String),
    /// The amount of a quantity, in decimal notation.
    Quantity(String),
    Time(TimeValue),
    Coordinate(LatLon),
    /// Language, then text.
    MonoLingual(LocalizedText),
}

/// A property with a value, or with none.
#[derive(Debug, Clone)]
pub struct Snak {
    pub property: String,
    pub datatype: SnakDataType,
    pub value: Option<SnakValue>,
}

/// A claim: a main snak and its qualifiers.
#[derive(Debug, Clone)]
pub struct Statement {
    pub main_snak: Snak,
    pub qualifiers: Vec<Snak>,
}

/// What the list logic reads of one entity.
#[derive(Debug, Clone)]
pub struct Entity {
    pub id: String,
    pub labels: Vec<LocalizedText>,
    pub descriptions: Vec<LocalizedText>,
    pub sitelinks: Vec<SiteLink>,
    pub claims: Vec<Statement>,
    /// For a property: the datatype of its values.
    pub datatype: Option<SnakDataType>,
}

/// The loaded entities. Where an identifier occurs twice the first entry counts.
#[derive(Debug, Clone)]
pub struct EntityStore {
    pub entities: Vec<Entity>,
}

/// The text of the first entry of `texts` in `language`.
pub open spec fn text_in(texts: Seq<LocalizedText>, language: Seq<char>) -> Option<Seq<char>> {
    let i = first_where(texts, |t: LocalizedText| t.language@ == language, 0);
    if 0 <= i < texts.len() {
        Some(texts[i].text@)
    } else {
        None
    }
}

/// The title of the first entry of `links` on `site`.
pub open spec fn title_on(links: Seq<SiteLink>, site: Seq<char>) -> Option<Seq<char>> {
    let i = first_where(links, |l: SiteLink| l.site@ == site, 0);
    if 0 <= i < links.len() {
        Some(links[i].title@)
    } else {
        None
    }
}

/// The index in `entities` of the first entity with identifier `id`, or the length.
pub open spec fn entity_index(entities: Seq<Entity>, id: Seq<char>) -> int {
    first_where(entities, |e: Entity| e.id@ == id, 0)
}

/// The view of an optional text.
pub open spec fn view_of(o: Option<&str>) -> Option<Seq<char>> {
    match o {
        Some(s) => Some(s@),
        None => None,
    }
}

/// The view of an optional string.
pub open spec fn string_view(o: Option<String>) -> Option<Seq<char>> {
    match o {
        Some(s) => Some(s@),
        None => None,
    }
}

/// The text of the first entry of `texts` in `language`.
pub fn find_text<'a>(texts: &'a Vec<LocalizedText>, language: &str) -> (r: Option<&'a str>)
    ensures
        view_of(r) == text_in(texts@, language@),
{
    let ghost p = |t: LocalizedText| t.language@ == language@;
    let mut i: usize = 0;
    while i < texts.len()
        invariant
            i <= texts.len(),
            p == (|t: LocalizedText| t.language@ == language@),
            forall|j: int| 0 <= j < i ==> !p(#[trigger] texts@[j]),
        decreases texts.len() - i,
    {
        if str_eq(texts[i].language.as_str(), language) {
            proof {
                lemma_first_where(texts@, p, 0, i as int);
            }
            return Some(texts[i].text.as_str());
        }
        i += 1;
    }
    proof {
        lemma_first_where(texts@, p, 0, i as int);
    }
    None
}

impl Entity {
    /// The label of the entity in `language`, if it has one.
    pub fn label_in_locale(&self, language: &str) -> (r: Option<&str>)
        ensures
            view_of(r) == text_in(self.labels@, language@),
    {
        find_text(&self.labels, language)
    }

    /// The description of the entity in `language`, if it has one.
    pub fn description_in_locale(&self, language: &str) -> (r: Option<&str>)
        ensures
            view_of(r) == text_in(self.descriptions@, language@),
    {
        find_text(&self.descriptions, language)
    }

    /// The title of the entity's page on `site`, if it has one.
    pub fn sitelink_title(&self, site: &str) -> (r: Option<&str>)
        ensures
            view_of(r) == title_on(self.sitelinks@, site@),
    {
        let ghost p = |l: SiteLink| l.site@ == site@;
        let mut i: usize = 0;
        while i < self.sitelinks.len()
            invariant
                i <= self.sitelinks.len(),
                p == (|l: SiteLink| l.site@ == site@),
                forall|j: int| 0 <= j < i ==> !p(#[trigger] self.sitelinks@[j]),
            decreases self.sitelinks.len() - i,
        {
            if str_eq(self.sitelinks[i].site.as_str(), site) {
                proof {
                    lemma_first_where(self.sitelinks@, p, 0, i as int);
                }
                return Some(self.sitelinks[i].title.as_str());
            }
            i += 1;
        }
        proof {
            lemma_first_where(self.sitelinks@, p, 0, i as int);
        }
        None
    }
}

impl EntityStore {
    /// A store without entities.
    pub fn new() -> (r: Self)
        ensures
            r.entities@.len() == 0,
    {
        EntityStore { entities: Vec::new() }
    }

    /// The entity with identifier `id`, as a value of contracts.
    pub open spec fn entity(&self, id: Seq<char>) -> Option<Entity> {
        let i = entity_index(self.entities@, id);
        if 0 <= i < self.entities@.len() {
            Some(self.entities@[i])
        } else {
            None
        }
    }

    /// The label of `id` in `language`, as a value of contracts.
    pub open spec fn label(&self, id: Seq<char>, language: Seq<char>) -> Option<Seq<char>> {
        match self.entity(id) {
            Some(e) => text_in(e.labels@, language),
            None => None,
        }
    }

    /// The label of `id` in `language`, or `id` itself where there is none.
    pub open spec fn label_or_id(&self, id: Seq<char>, language: Seq<char>) -> Seq<char> {
        match self.label(id, language) {
            Some(l) => l,
            None => id,
        }
    }

    /// The title of the page of `id` on `site`, as a value of contracts.
    pub open spec fn page_on(&self, id: Seq<char>, site: Seq<char>) -> Option<Seq<char>> {
        match self.entity(id) {
            Some(e) => title_on(e.sitelinks@, site),
            None => None,
        }
    }

    /// The loaded entity with identifier `id`.
    pub fn get_entity(&self, id: &str) -> (r: Option<&Entity>)
        ensures
            match r {
                Some(e) => self.entity(id@) == Some(*e),
                None => self.entity(id@) is None,
            },
    {
        let ghost p = |e: Entity| e.id@ == id@;
        let mut i: usize = 0;
        while i < self.entities.len()
            invariant
                i <= self.entities.len(),
                p == (|e: Entity| e.id@ == id@),
                forall|j: int| 0 <= j < i ==> !p(#[trigger] self.entities@[j]),
            decreases self.entities.len() - i,
        {
            if str_eq(self.entities[i].id.as_str(), id) {
                proof {
                    lemma_first_where(self.entities@, p, 0, i as int);
                }
                return Some(&self.entities[i]);
            }
            i += 1;
        }
        proof {
            lemma_first_where(self.entities@, p, 0, i as int);
        }
        None
    }

    /// Whether an entity with identifier `id` is loaded.
    pub fn has_entity(&self, id: &str) -> (r: bool)
        ensures
            r == self.entity(id@).is_some(),
    {
        self.get_entity(id).is_some()
    }

    /// The label of `id` in `language`, if the entity is loaded and has one.
    pub fn get_label(&self, id: &str, language: &str) -> (r: Option<&str>)
        ensures
            view_of(r) == self.label(id@, language@),
    {
        match self.get_entity(id) {
            Some(e) => e.label_in_locale(language),
            None => None,
        }
    }

    /// The label of `id` in `language`; where there is none, `id` itself.
    pub fn get_label_with_fallback(&self, id: &str, language: &str) -> (r: String)
        ensures
            r@ == self.label_or_id(id@, language@),
    {
        match self.get_label(id, language) {
            Some(l) => copy_str(l),
            None => copy_str(id),
        }
    }

    /// The title of the page of `id` on `site`, if the entity is loaded and has one.
    pub fn get_sitelink(&self, id: &str, site: &str) -> (r: Option<&str>)
        ensures
            view_of(r) == self.page_on(id@, site@),
    {
        match self.get_entity(id) {
            Some(e) => e.sitelink_title(site),
            None => None,
        }
    }

    /// The datatype that the property `id` declares for its values.
    pub fn get_datatype_for_property(&self, id: &str) -> (r: Option<SnakDataType>)
        ensures
            r == match self.entity(id@) {
                Some(e) => e.datatype,
                None => None,
            },
    {
        match self.get_entity(id) {
            Some(e) => e.datatype,
            None => None,
        }
    }
}

} // verus!
