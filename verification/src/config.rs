//! The configuration of a run: known entity-store endpoints and the
//! namespaces that may not be edited on each wiki.

use vstd::prelude::*;
use vstd::string::*;
use crate::dict::Dict;
use crate::json::{json_written, parse_json, parsed_json, Json, JsonNumber, JsonValue};
use crate::text::{copy_str, str_eq};

verus! {

/// The namespaces of one wiki that may not be edited.
#[derive(Debug)]
pub enum NamespaceGroup {
    /// Every namespace.
    All,
    /// The listed namespaces.
    List(Vec<i64>),
}

/// The mathematical value of a [`NamespaceGroup`].
pub enum NamespaceBlock {
    All,
    List(Seq<i64>),
}

impl View for NamespaceGroup {
    type V = NamespaceBlock;

    open spec fn view(&self) -> NamespaceBlock {
        match self {
            NamespaceGroup::All => NamespaceBlock::All,
            NamespaceGroup::List(l) => NamespaceBlock::List(l@),
        }
    }
}

impl Clone for NamespaceGroup {
    fn clone(&self) -> (r: Self)
        ensures
            r@ == self@,
    {
        match self {
            NamespaceGroup::All => NamespaceGroup::All,
            NamespaceGroup::List(l) => NamespaceGroup::List(l.clone()),
        }
    }
}

impl NamespaceBlock {
    /// Whether the namespace `nsid` may be edited under this block: never
    /// under `All`; under a list, when it is a real namespace that is not listed.
    pub open spec fn allows(self, nsid: i64) -> bool {
        match self {
            NamespaceBlock::All => false,
            NamespaceBlock::List(l) => nsid >= 0 && !l.contains(nsid),
        }
    }
}

impl NamespaceGroup {
    /// Whether the namespace `nsid` may be edited under this group.
    pub fn can_edit_namespace(&self, nsid: i64) -> (r: bool)
        ensures
            r == self@.allows(nsid),
    {
        match self {
            NamespaceGroup::All => false,
            NamespaceGroup::List(list) => {
                if nsid < 0 {
                    return false;
                }
                let mut i: usize = 0;
                while i < list.len()
                    invariant
                        i <= list.len(),
                        nsid >= 0,
                        self@ == NamespaceBlock::List(list@),
                        forall|j: int| 0 <= j < i ==> list@[j] != nsid,
                    decreases list.len() - i,
                {
                    if list[i] == nsid {
                        assert(list@.contains(nsid));
                        return false;
                    }
                    i += 1;
                }
                true
            },
        }
    }
}

// ---------------------------------------------------------------------------
// What a configuration document says
// ---------------------------------------------------------------------------

/// The members of the object member `name` of `j`; empty where `j` has no
/// such member or it is no object.
pub open spec fn members_of(j: Json, name: Seq<char>) -> Seq<(String, Json)> {
    match j.member(name) {
        Some(Json::Object(m)) => m@,
        _ => Seq::empty(),
    }
}

/// The endpoints that the members of an `apis` object declare: each member
/// with a string value, a later one replacing an earlier one of the same name.
pub open spec fn apis_of(members: Seq<(String, Json)>) -> Map<Seq<char>, Seq<char>>
    decreases members.len(),
{
    if members.len() == 0 {
        Map::empty()
    } else {
        let before = apis_of(members.drop_last());
        match members.last().1 {
            Json::Text(t) => before.insert(members.last().0@, t@),
            _ => before,
        }
    }
}

/// The namespace numbers that the elements of an array list: each element
/// that is a non-negative integer, as a signed number.
pub open spec fn ids_of(elements: Seq<Json>) -> Seq<i64>
    decreases elements.len(),
{
    if elements.len() == 0 {
        Seq::empty()
    } else {
        let before = ids_of(elements.drop_last());
        match elements.last() {
            Json::Number(JsonNumber::Unsigned(n)) => before.push(n as i64),
            _ => before,
        }
    }
}

/// A member of `namespace_blocks` that cannot be read: a string other than `*`.
pub open spec fn is_bad_block(value: Json) -> bool {
    value matches Json::Text(t) && t@ != "*"@
}

/// The index of the first member at or after `from` that cannot be read, or
/// the length.
pub open spec fn first_bad_block(members: Seq<(String, Json)>, from: int) -> int
    decreases members.len() - from,
{
    if from < 0 || from >= members.len() {
        members.len() as int
    } else if is_bad_block(members[from].1) {
        from
    } else {
        first_bad_block(members, from + 1)
    }
}

/// The blocks that the members of a `namespace_blocks` object declare: `*`
/// for all namespaces, an array for the listed ones; other members declare
/// nothing. A later member replaces an earlier one of the same name.
pub open spec fn blocks_of(members: Seq<(String, Json)>) -> Map<Seq<char>, NamespaceBlock>
    decreases members.len(),
{
    if members.len() == 0 {
        Map::empty()
    } else {
        let before = blocks_of(members.drop_last());
        match members.last().1 {
            Json::Text(t) => if t@ == "*"@ {
                before.insert(members.last().0@, NamespaceBlock::All)
            } else {
                before
            },
            Json::Array(a) => before.insert(members.last().0@, NamespaceBlock::List(ids_of(a@))),
            _ => before,
        }
    }
}

/// The message for a member of `namespace_blocks` that cannot be read: it
/// names the member and gives its value as it is written in a document.
pub open spec fn block_error(name: Seq<char>, value: Seq<char>) -> Seq<char> {
    "Unrecognized string value for namespace_blocks["@ + name + "]:"@ + json_written(
        JsonValue::Text(value),
    )
}

/// The texts of a map of strings.
pub open spec fn texts_of(m: Map<Seq<char>, String>) -> Map<Seq<char>, Seq<char>> {
    Map::new(|k: Seq<char>| m.contains_key(k), |k: Seq<char>| m[k]@)
}

/// The values of a map of namespace groups.
pub open spec fn blocks_in(m: Map<Seq<char>, NamespaceGroup>) -> Map<Seq<char>, NamespaceBlock> {
    Map::new(|k: Seq<char>| m.contains_key(k), |k: Seq<char>| m[k]@)
}

proof fn lemma_first_bad_block(members: Seq<(String, Json)>, from: int, k: int)
    requires
        0 <= from <= k <= members.len(),
        forall|j: int| from <= j < k ==> !is_bad_block(#[trigger] members[j].1),
        k == members.len() || is_bad_block(members[k].1),
    ensures
        first_bad_block(members, from) == k,
    decreases k - from,
{
    if from < k {
        assert(!is_bad_block(members[from].1));
        lemma_first_bad_block(members, from + 1, k);
    }
}

/// The namespace numbers that the elements of an array list.
pub fn namespace_ids(elements: &Vec<Json>) -> (r: Vec<i64>)
    ensures
        r@ == ids_of(elements@),
{
    let mut r: Vec<i64> = Vec::new();
    let mut i: usize = 0;
    while i < elements.len()
        invariant
            i <= elements.len(),
            r@ == ids_of(elements@.take(i as int)),
        decreases elements.len() - i,
    {
        assert(elements@.take(i + 1).drop_last() == elements@.take(i as int));
        match elements[i].as_u64() {
            Some(n) => {
                r.push(#[verifier::truncate] (n as i64));
            },
            None => {},
        }
        i += 1;
    }
    assert(elements@.take(elements.len() as int) == elements@);
    r
}

// ---------------------------------------------------------------------------
// The configuration
// ---------------------------------------------------------------------------

/// The configuration of a run.
#[derive(Debug, Clone)]
pub struct Configuration {
    wb_apis: Dict<String>,
    namespace_blocks: Dict<NamespaceGroup>,
    default_api: String,
    prefer_preferred: bool,
}

impl Default for Configuration {
    fn default() -> (r: Self)
        ensures
            r.apis() == Map::<Seq<char>, Seq<char>>::empty(),
            r.blocks() == Map::<Seq<char>, NamespaceBlock>::empty(),
            r.default_api() == Seq::<char>::empty(),
            !r.prefers_preferred(),
    {
        let r = Configuration {
            wb_apis: Dict::new(),
            namespace_blocks: Dict::new(),
            default_api: String::new(),
            prefer_preferred: false,
        };
        assert(r.apis() =~= Map::<Seq<char>, Seq<char>>::empty());
        assert(r.blocks() =~= Map::<Seq<char>, NamespaceBlock>::empty());
        r
    }
}

impl Configuration {
    /// The endpoint of each named entity store.
    pub closed spec fn apis(&self) -> Map<Seq<char>, Seq<char>> {
        texts_of(self.wb_apis@)
    }

    /// The block on each wiki that has one.
    pub closed spec fn blocks(&self) -> Map<Seq<char>, NamespaceBlock> {
        blocks_in(self.namespace_blocks@)
    }

    /// The name of the entity store to use.
    pub closed spec fn default_api(&self) -> Seq<char> {
        self.default_api@
    }

    /// Whether claims of preferred rank hide the others.
    pub closed spec fn prefers_preferred(&self) -> bool {
        self.prefer_preferred
    }

    /// Whether pages in namespace `nsid` of `wiki` may be edited: yes unless
    /// the wiki has a block that forbids it.
    pub open spec fn can_edit(&self, wiki: Seq<char>, nsid: i64) -> bool {
        if self.blocks().contains_key(wiki) {
            self.blocks()[wiki].allows(nsid)
        } else {
            true
        }
    }

    /// Whether pages in namespace `nsid` of `wiki` may be edited.
    pub fn can_edit_namespace(&self, wiki: &str, nsid: i64) -> (r: bool)
        ensures
            r == self.can_edit(wiki@, nsid),
    {
        match self.namespace_blocks.get(wiki) {
            Some(nsg) => nsg.can_edit_namespace(nsid),
            None => true,
        }
    }

    /// Whether claims of preferred rank hide the others.
    pub fn prefer_preferred(&self) -> (r: bool)
        ensures
            r == self.prefers_preferred(),
    {
        self.prefer_preferred
    }

    /// The address of the entity store to use: that of the default store
    /// where it is known, else that of Wikidata.
    pub fn default_wbapi_url(&self) -> (r: String)
        ensures
            r@ == (if self.apis().contains_key(self.default_api()) {
                self.apis()[self.default_api()]
            } else {
                "https://www.wikidata.org/w/api.php"@
            }),
    {
        match self.wb_apis.get(self.default_api.as_str()) {
            Some(url) => url.clone(),
            None => copy_str("https://www.wikidata.org/w/api.php"),
        }
    }

    /// `r` is what reading the configuration document `j` gives: the
    /// configuration, or the message for the first member of
    /// `namespace_blocks` that is a string other than `*`.
    pub open spec fn read_from(j: Json, r: Result<Self, String>) -> bool {
        match r {
            Ok(c) => {
                let blocks = members_of(j, "namespace_blocks"@);
                &&& first_bad_block(blocks, 0) == blocks.len()
                &&& c.default_api() == (match j.member_text("default_api"@) {
                    Some(t) => t,
                    None => Seq::empty(),
                })
                &&& c.apis() == apis_of(members_of(j, "apis"@))
                &&& c.blocks() == blocks_of(blocks)
                &&& c.prefers_preferred() == (j.member("prefer_preferred"@) == Some(
                    Json::Bool(true),
                ))
            },
            Err(e) => {
                let blocks = members_of(j, "namespace_blocks"@);
                let i = first_bad_block(blocks, 0);
                &&& 0 <= i < blocks.len()
                &&& blocks[i].1 matches Json::Text(t)
                &&& e@ == block_error(blocks[i].0@, t@)
            },
        }
    }

    /// Reads a configuration document. It fails on the first member of
    /// `namespace_blocks` that is a string other than `*`, and on nothing else.
    pub fn new_from_json(j: &Json) -> (r: Result<Self, String>)
        ensures
            Self::read_from(*j, r),
    {
        let default_api = match j.get_str("default_api") {
            Some(s) => copy_str(s),
            None => String::new(),
        };
        let mut wb_apis: Dict<String> = Dict::new();
        assert(texts_of(wb_apis@) =~= Map::<Seq<char>, Seq<char>>::empty());
        match j.get("apis") {
            Some(Json::Object(o)) => {
                let mut i: usize = 0;
                while i < o.len()
                    invariant
                        i <= o.len(),
                        wb_apis.wf(),
                        texts_of(wb_apis@) == apis_of(o@.take(i as int)),
                    decreases o.len() - i,
                {
                    assert(o@.take(i + 1).drop_last() == o@.take(i as int));
                    match &o[i].1 {
                        Json::Text(v) => {
                            let ghost before = wb_apis@;
                            wb_apis.insert(o[i].0.clone(), v.clone());
                            assert(texts_of(wb_apis@) =~= texts_of(before).insert(o@[i as int].0@, v@));
                        },
                        _ => {},
                    }
                    i += 1;
                }
                assert(o@.take(o.len() as int) == o@);
            },
            _ => {},
        }
        let mut namespace_blocks: Dict<NamespaceGroup> = Dict::new();
        assert(blocks_in(namespace_blocks@) =~= Map::<Seq<char>, NamespaceBlock>::empty());
        match j.get("namespace_blocks") {
            Some(Json::Object(o)) => {
                let mut i: usize = 0;
                while i < o.len()
                    invariant
                        i <= o.len(),
                        namespace_blocks.wf(),
                        members_of(*j, "namespace_blocks"@) == o@,
                        forall|k: int| 0 <= k < i ==> !is_bad_block(#[trigger] o@[k].1),
                        blocks_in(namespace_blocks@) == blocks_of(o@.take(i as int)),
                    decreases o.len() - i,
                {
                    assert(o@.take(i + 1).drop_last() == o@.take(i as int));
                    let ghost before = namespace_blocks@;
                    match &o[i].1 {
                        Json::Text(s) => {
                            if str_eq(s.as_str(), "*") {
                                namespace_blocks.insert(o[i].0.clone(), NamespaceGroup::All);
                                assert(blocks_in(namespace_blocks@) =~= blocks_in(before).insert(
                                    o@[i as int].0@,
                                    NamespaceBlock::All,
                                ));
                            } else {
                                proof {
                                    lemma_first_bad_block(o@, 0, i as int);
                                }
                                let mut e = copy_str(
                                    "Unrecognized string value for namespace_blocks[",
                                );
                                e.append(o[i].0.as_str());
                                e.append("]:");
                                e.append(Json::Text(s.clone()).to_text().as_str());
                                return Err(e);
                            }
                        },
                        Json::Array(a) => {
                            let ids = namespace_ids(a);
                            namespace_blocks.insert(o[i].0.clone(), NamespaceGroup::List(ids));
                            assert(blocks_in(namespace_blocks@) =~= blocks_in(before).insert(
                                o@[i as int].0@,
                                NamespaceBlock::List(ids_of(a@)),
                            ));
                        },
                        _ => {},
                    }
                    i += 1;
                }
                assert(o@.take(o.len() as int) == o@);
                proof {
                    lemma_first_bad_block(o@, 0, o.len() as int);
                }
            },
            _ => {},
        }
        let prefer_preferred = match j.get("prefer_preferred") {
            Some(Json::Bool(b)) => *b,
            _ => false,
        };
        Ok(Configuration { wb_apis, namespace_blocks, default_api, prefer_preferred })
    }
}

impl Configuration {
    /// Reads the text of a configuration document: the text is parsed, and
    /// the document it stands for is read as by
    /// [`Configuration::new_from_json`]. A text that is no document fails
    /// with the message of the parser.
    pub fn new_from_text(text: &str) -> (r: Result<Self, String>)
        ensures
            match parsed_json(text@) {
                Ok(value) => exists|doc: Json| doc@ == value && #[trigger] Self::read_from(doc, r),
                Err(message) => r matches Err(e) && e@ == message,
            },
    {
        match parse_json(text) {
            Ok(doc) => {
                let r = Self::new_from_json(&doc);
                assert(Self::read_from(doc, r));
                r
            },
            Err(e) => Err(e),
        }
    }
}

} // verus!
