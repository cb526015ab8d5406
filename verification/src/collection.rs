use vstd::prelude::*;

use crate::ids::{is_v4_uuid, new_uuid, now, Timestamp};

verus! {

/// A help-centre collection of articles.
///
/// Identifiers are the 128-bit values of UUIDs; times are kept at the
/// precision of the system clock. The stored embeddings are kept by the
/// database layer.
#[derive(Debug, Clone)]
pub struct Collection {
    pub id: u128,
    pub name: String,
    pub description: Option<String>,
    pub slug: String,
    pub helpscout_collection_id: String,
    pub created_at: Timestamp,
    pub updated_at: Timestamp,
    pub paragraph_description: Option<String>,
    pub bullet_points: Option<String>,
    pub keywords: Option<String>,
}

/// A collection as the help-centre API lists it.
#[derive(Debug, Clone)]
pub struct CollectionItem {
    pub id: String,
    pub site_id: String,
    pub number: i32,
    pub slug: String,
    pub visibility: String,
    pub order: i32,
    pub name: String,
    pub description: Option<String>,
    pub public_url: String,
    pub article_count: i32,
    pub published_article_count: i32,
    pub created_by: i32,
    pub updated_by: i32,
    pub created_at: String,
    pub updated_at: String,
}

/// Whether `c` is a new collection with the given fields: a version-4 UUID
/// as identifier, no metadata yet, and creation times that the contract
/// leaves open.
pub open spec fn is_new_collection(
    c: Collection,
    name: String,
    description: Option<String>,
    slug: String,
    helpscout_collection_id: String,
) -> bool {
    &&& is_v4_uuid(c.id)
    &&& c.name == name
    &&& c.description == description
    &&& c.slug == slug
    &&& c.helpscout_collection_id == helpscout_collection_id
    &&& c.paragraph_description is None
    &&& c.bullet_points is None
    &&& c.keywords is None
}

impl Collection {
    /// A new collection, with a fresh identifier, stamped with the current
    /// time, and no metadata.
    pub fn new(
        name: String,
        description: Option<String>,
        slug: String,
        helpscout_collection_id: String,
    ) -> (c: Self)
        ensures
            is_new_collection(c, name, description, slug, helpscout_collection_id),
    {
        let id = new_uuid();
        let created_at = now();
        let updated_at = now();
        Collection {
            id,
            name,
            description,
            slug,
            helpscout_collection_id,
            created_at,
            updated_at,
            paragraph_description: None,
            bullet_points: None,
            keywords: None,
        }
    }
}

impl From<CollectionItem> for Collection {
    /// A new collection for an item the API listed: its name, description
    /// and slug, with the API's id as the help-centre collection id.
    fn from(item: CollectionItem) -> (c: Self)
        ensures
            is_new_collection(c, item.name, item.description, item.slug, item.id),
    {
        Collection::new(item.name, item.description, item.slug, item.id)
    }
}

/// The conversion is not a function of the item alone (each call gives a
/// fresh identifier and the current time), so it does not obey a `from_spec`;
/// `from_spec` names some new collection for the item, and `from` itself
/// states what holds of every result.
impl vstd::std_specs::convert::FromSpecImpl<CollectionItem> for Collection {
    open spec fn obeys_from_spec() -> bool {
        false
    }

    open spec fn from_spec(item: CollectionItem) -> Collection {
        choose|c: Collection| is_new_collection(c, item.name, item.description, item.slug, item.id)
    }
}

} // verus!
