//! A page with its lists: what is asked of the wiki for it, which templates
//! of its parse tree are lists, and whether it may be edited.

use vstd::prelude::*;
use vstd::string::*;
use crate::config::Configuration;
use crate::entity::{title_on, Entity};
use crate::json::Json;
use crate::listeria_list::ListeriaList;
use crate::params::Template;
use crate::result_row::ResultRow;
use crate::text::{copy_str, integer_string, integer_text, str_eq};
use crate::xml::{param_texts, params_after, parse_tree, parsed_tree, title_after, XmlNode};

verus! {

/// What is known of the page before it is read.
#[derive(Debug, Clone)]
pub struct PageParams {
    pub language: String,
    pub wiki: String,
    pub page: String,
    pub simulate: bool,
    pub simulated_text: Option<String>,
    pub simulated_sparql_results: Option<String>,
    pub config: Configuration,
}

/// The entity that stands for the list template: the pages it has on the
/// wikis are the list templates there.
pub open spec fn list_template_entity() -> Seq<char> {
    "Q19860885"@
}

/// The identifier of the entity that stands for the list template.
pub fn list_template_id() -> (r: String)
    ensures
        r@ == list_template_entity(),
{
    copy_str("Q19860885")
}

/// The message for a list template entity that was not loaded.
pub open spec fn not_found_error(id: Seq<char>) -> Seq<char> {
    "Entity "@ + id + " not found"@
}

/// The message for a list template entity without a page on the wiki.
pub open spec fn no_sitelink_error(wiki: Seq<char>, id: Seq<char>) -> Seq<char> {
    "No sitelink to "@ + wiki + " in "@ + id
}

impl PageParams {
    /// The title of the list template on the wiki of the page: the title of
    /// the page that the entity which stands for the list template has on
    /// that wiki. `entity` is that entity, if it could be loaded.
    pub fn get_local_template_title(&self, entity: Option<&Entity>) -> (r: Result<String, String>)
        ensures
            match entity {
                Some(e) => match title_on(e.sitelinks@, self.wiki@) {
                    Some(title) => r matches Ok(t) && t@ == title,
                    None => r matches Err(m) && m@ == no_sitelink_error(
                        self.wiki@,
                        list_template_entity(),
                    ),
                },
                None => r matches Err(m) && m@ == not_found_error(list_template_entity()),
            },
    {
        let id = list_template_id();
        match entity {
            Some(e) => match e.sitelink_title(self.wiki.as_str()) {
                Some(title) => Ok(copy_str(title)),
                None => {
                    let mut m = copy_str("No sitelink to ");
                    m.append(self.wiki.as_str());
                    m.append(" in ");
                    m.append(id.as_str());
                    Err(m)
                },
            },
            None => {
                let mut m = copy_str("Entity ");
                m.append(id.as_str());
                m.append(" not found");
                Err(m)
            },
        }
    }

    /// The prefix of file pages on the wiki.
    pub fn local_file_namespace_prefix(&self) -> (r: String)
        ensures
            r@ == "File"@,
    {
        copy_str("File")
    }
}

/// A page and the lists on it.
#[derive(Debug)]
pub struct ListeriaPage {
    pub page_params: PageParams,
    pub template: Option<Template>,
    pub results: Vec<ResultRow>,
    pub data_has_changed: bool,
    pub lists: Vec<ListeriaList>,
}

/// A name and a value of a request.
#[derive(Debug, Clone)]
pub struct RequestParam {
    pub name: String,
    pub value: String,
}

/// Names and values of a request, as pairs of texts.
pub open spec fn request_view(v: Seq<RequestParam>) -> Seq<(Seq<char>, Seq<char>)> {
    Seq::new(v.len(), |i: int| (v[i].name@, v[i].value@))
}

/// The title under which a list template stands on every wiki.
pub open spec fn fallback_title() -> Seq<char> {
    "Wikidata list"@
}

/// The mathematical value of a [`Template`].
pub struct TemplateView {
    pub title: Seq<char>,
    pub params: Map<Seq<char>, Seq<char>>,
}

/// The value of a template.
pub open spec fn template_view(t: Template) -> TemplateView {
    TemplateView { title: t.title@, params: param_texts(t.params@) }
}

/// The values of a list of templates.
pub open spec fn template_views(v: Seq<Template>) -> Seq<TemplateView> {
    Seq::new(v.len(), |i: int| template_view(v[i]))
}

/// The list template that a node of the parse tree is, if it is one: a
/// `template` element with a title that is `start` or the fallback title.
pub open spec fn list_template(node: XmlNode, start: Seq<char>) -> Option<TemplateView> {
    if node.is_element && node.tag@ == "template"@ {
        match title_after(node.children@, node.children@.len() as int) {
            Some(title) => if title == start || title == fallback_title() {
                Some(
                    TemplateView {
                        title,
                        params: params_after(node.children@, node.children@.len() as int),
                    },
                )
            } else {
                None
            },
            None => None,
        }
    } else {
        None
    }
}

/// The list templates in the tree under `node`, the node itself included, in
/// document order.
pub open spec fn list_templates(node: XmlNode, start: Seq<char>) -> Seq<TemplateView>
    decreases node, 0int,
{
    (match list_template(node, start) {
        Some(t) => seq![t],
        None => Seq::empty(),
    }) + list_templates_in(node.children@, start, node.children@.len() as int)
}

/// The list templates in the trees under the first `n` of `nodes`.
pub open spec fn list_templates_in(nodes: Seq<XmlNode>, start: Seq<char>, n: int) -> Seq<
    TemplateView,
>
    decreases nodes, n,
{
    if n <= 0 || n > nodes.len() {
        Seq::empty()
    } else {
        list_templates_in(nodes, start, n - 1) + list_templates(nodes[n - 1], start)
    }
}

/// Appends to `out` the list templates in the tree under `node`.
pub fn collect_templates(node: &XmlNode, start: &str, out: &mut Vec<Template>)
    ensures
        template_views(final(out)@) == template_views(old(out)@) + list_templates(*node, start@),
    decreases node,
{
    let ghost begin = template_views(out@);
    assert(begin + Seq::<TemplateView>::empty() =~= begin);
    if node.is_element && str_eq(node.tag.as_str(), "template") {
        match Template::new_from_xml(node) {
            Some(t) => {
                if str_eq(t.title.as_str(), start) || str_eq(t.title.as_str(), "Wikidata list") {
                    let ghost view = template_view(t);
                    out.push(t);
                    assert(template_views(out@) =~= begin + seq![view]);
                }
            },
            None => {},
        }
    }
    let ghost own = template_views(out@);
    assert(own + Seq::<TemplateView>::empty() =~= own);
    let mut i: usize = 0;
    while i < node.children.len()
        invariant
            i <= node.children.len(),
            decreases_to!(*node => node.children),
            template_views(out@) == own + list_templates_in(node.children@, start@, i as int),
        decreases node.children.len() - i,
    {
        proof {
            vstd::std_specs::vec::axiom_vec_index_decreases(node.children, i as int);
        }
        let ghost before = template_views(out@);
        collect_templates(&node.children[i], start, out);
        assert(own + (list_templates_in(node.children@, start@, i as int) + list_templates(
            node.children@[i as int],
            start@,
        )) =~= before + list_templates(node.children@[i as int], start@));
        i += 1;
    }
    assert(begin + list_templates(*node, start@) =~= own + list_templates_in(
        node.children@,
        start@,
        node.children@.len() as int,
    ));
}

/// The message for a page in a namespace that may not be edited.
pub open spec fn namespace_error(nsid: i64, wiki: Seq<char>) -> Seq<char> {
    "Namespace "@ + integer_text(nsid as int) + " not allowed for edit on "@ + wiki
}

/// The message for an answer without the text that was asked for.
pub open spec fn no_parse_error(page: Seq<char>) -> Seq<char> {
    "No parse tree for "@ + page
}

/// The text that an answer to a parse request holds for `mode`: the string
/// at `parse.<mode>.*`.
pub open spec fn answer_text(answer: Json, mode: Seq<char>) -> Option<Seq<char>> {
    match answer.member("parse"@) {
        Some(parse) => match parse.member(mode) {
            Some(part) => part.member_text("*"@),
            None => None,
        },
        None => None,
    }
}

impl ListeriaPage {
    /// A page without lists yet.
    pub fn new(page_params: PageParams) -> (r: Self)
        ensures
            r.page_params == page_params,
            r.template is None,
            r.results@.len() == 0,
            !r.data_has_changed,
            r.lists@.len() == 0,
    {
        Self {
            page_params,
            template: None,
            results: Vec::new(),
            data_has_changed: false,
            lists: Vec::new(),
        }
    }

    /// From now on the page is not read from the wiki: its text and the
    /// results of its query are the given ones.
    pub fn do_simulate(&mut self, text: Option<String>, sparql_results: Option<String>)
        ensures
            final(self).page_params.simulate,
            final(self).page_params.simulated_text == text,
            final(self).page_params.simulated_sparql_results == sparql_results,
            final(self).page_params.language == old(self).page_params.language,
            final(self).page_params.wiki == old(self).page_params.wiki,
            final(self).page_params.page == old(self).page_params.page,
            final(self).page_params.config == old(self).page_params.config,
            final(self).lists == old(self).lists,
            final(self).template == old(self).template,
            final(self).results == old(self).results,
            final(self).data_has_changed == old(self).data_has_changed,
    {
        self.page_params.simulate = true;
        self.page_params.simulated_text = text;
        self.page_params.simulated_sparql_results = sparql_results;
    }

    /// The language of the page.
    pub fn language(&self) -> (r: &String)
        ensures
            r == self.page_params.language,
    {
        &self.page_params.language
    }

    /// The lists of the page.
    pub fn lists(&self) -> (r: &Vec<ListeriaList>)
        ensures
            r == self.lists,
    {
        &self.lists
    }

    /// Whether the page, which stands in the namespace `namespace_id`, may
    /// be edited under the configuration.
    pub fn check_namespace(&self, namespace_id: i64) -> (r: Result<(), String>)
        ensures
            match r {
                Ok(_) => self.page_params.config.can_edit(self.page_params.wiki@, namespace_id),
                Err(e) => !self.page_params.config.can_edit(self.page_params.wiki@, namespace_id)
                    && e@ == namespace_error(namespace_id, self.page_params.wiki@),
            },
    {
        if self.page_params.config.can_edit_namespace(self.page_params.wiki.as_str(), namespace_id) {
            Ok(())
        } else {
            let mut e = copy_str("Namespace ");
            e.append(integer_string(namespace_id).as_str());
            e.append(" not allowed for edit on ");
            e.append(self.page_params.wiki.as_str());
            Err(e)
        }
    }

    /// What is asked of the wiki to get the page in the form `mode`: the
    /// page by its title or, where a text is simulated, that text under the
    /// title of the page.
    pub fn load_page_request(&self, mode: &str) -> (r: Vec<RequestParam>)
        ensures
            request_view(r@) == (match self.page_params.simulated_text {
                Some(t) => seq![
                    ("action"@, "parse"@),
                    ("prop"@, mode@),
                    ("title"@, self.page_params.page@),
                    ("text"@, t@),
                ],
                None => seq![
                    ("action"@, "parse"@),
                    ("prop"@, mode@),
                    ("page"@, self.page_params.page@),
                ],
            }),
    {
        let mut r: Vec<RequestParam> = Vec::new();
        r.push(RequestParam { name: copy_str("action"), value: copy_str("parse") });
        r.push(RequestParam { name: copy_str("prop"), value: copy_str(mode) });
        match &self.page_params.simulated_text {
            Some(t) => {
                r.push(RequestParam { name: copy_str("title"), value: self.page_params.page.clone() });
                r.push(RequestParam { name: copy_str("text"), value: t.clone() });
                assert(request_view(r@) =~= seq![
                    ("action"@, "parse"@),
                    ("prop"@, mode@),
                    ("title"@, self.page_params.page@),
                    ("text"@, t@),
                ]);
            },
            None => {
                r.push(RequestParam { name: copy_str("page"), value: self.page_params.page.clone() });
                assert(request_view(r@) =~= seq![
                    ("action"@, "parse"@),
                    ("prop"@, mode@),
                    ("page"@, self.page_params.page@),
                ]);
            },
        }
        r
    }

    /// The text of the page in the form `mode`, taken from the answer of the wiki.
    pub fn load_page_answer(&self, mode: &str, answer: &Json) -> (r: Result<String, String>)
        ensures
            match r {
                Ok(text) => answer_text(*answer, mode@) == Some(text@),
                Err(e) => answer_text(*answer, mode@) is None && e@ == no_parse_error(
                    self.page_params.page@,
                ),
            },
    {
        let found = match answer.get("parse") {
            Some(parse) => match parse.get(mode) {
                Some(part) => part.get_str("*"),
                None => None,
            },
            None => None,
        };
        match found {
            Some(text) => Ok(copy_str(text)),
            None => {
                let mut e = copy_str("No parse tree for ");
                e.append(self.page_params.page.as_str());
                Err(e)
            },
        }
    }

    /// The list templates of the page, given the text of its parse tree: the
    /// text is parsed, and the templates are found as by
    /// [`ListeriaPage::find_templates`]. There are none where the text is not
    /// well-formed.
    pub fn load_page(&self, text: &str, template_start: &str) -> (r: Option<Vec<Template>>)
        ensures
            match parsed_tree(text@) {
                Some(root) => r matches Some(found) && template_views(found@) == list_templates(
                    root,
                    template_start@,
                ),
                None => r is None,
            },
    {
        match parse_tree(text) {
            Some(root) => Some(self.find_templates(&root, template_start)),
            None => None,
        }
    }

    /// The list templates of the page, in document order: the templates
    /// under `root` whose title is `template_start` or the fallback title.
    pub fn find_templates(&self, root: &XmlNode, template_start: &str) -> (r: Vec<Template>)
        ensures
            template_views(r@) == list_templates(*root, template_start@),
    {
        let mut out: Vec<Template> = Vec::new();
        assert(template_views(out@) =~= Seq::<TemplateView>::empty());
        collect_templates(root, template_start, &mut out);
        assert(Seq::<TemplateView>::empty() + list_templates(*root, template_start@)
            =~= list_templates(*root, template_start@));
        out
    }

    /// Whether the page is to be purged after a run: where its source text
    /// stays as it is (no new text was made) but the data behind it changed.
    pub fn needs_purge(&self, new_wikitext: Option<&str>) -> (r: bool)
        ensures
            r == (new_wikitext is None && self.data_has_changed),
    {
        new_wikitext.is_none() && self.data_has_changed
    }

    /// What is asked of the wiki to purge the page.
    pub fn purge_page_request(&self) -> (r: Vec<RequestParam>)
        ensures
            request_view(r@) == seq![("action"@, "purge"@), ("titles"@, self.page_params.page@)],
    {
        let mut r: Vec<RequestParam> = Vec::new();
        r.push(RequestParam { name: copy_str("action"), value: copy_str("purge") });
        r.push(RequestParam { name: copy_str("titles"), value: self.page_params.page.clone() });
        assert(request_view(r@) =~= seq![
            ("action"@, "purge"@),
            ("titles"@, self.page_params.page@),
        ]);
        r
    }

    /// Starts a run over the page: the lists of an earlier run are dropped.
    pub fn clear_lists(&mut self)
        ensures
            final(self).lists@.len() == 0,
            final(self).page_params == old(self).page_params,
            final(self).template == old(self).template,
            final(self).results == old(self).results,
            final(self).data_has_changed == old(self).data_has_changed,
    {
        self.lists = Vec::new();
    }

    /// Adds a finished list to the page.
    pub fn add_list(&mut self, list: ListeriaList)
        ensures
            final(self).lists@ == old(self).lists@.push(list),
            final(self).template matches Some(t) && t.same_as(&list.template),
            final(self).page_params == old(self).page_params,
            final(self).results == old(self).results,
            final(self).data_has_changed == old(self).data_has_changed,
    {
        self.template = Some(list.template.clone());
        self.lists.push(list);
    }

    /// Every list of the page fits its row template.
    pub open spec fn lists_fit(&self) -> bool {
        forall|i: int| 0 <= i < self.lists@.len() ==> (#[trigger] self.lists@[i]).rows_fit()
    }

    /// The markup of each list of the page, in the order of the lists. It
    /// fails where a list cannot be written.
    pub fn as_wikitext(&self) -> (r: Result<Vec<String>, String>)
        ensures
            match r {
                Ok(texts) => {
                    &&& self.lists_fit()
                    &&& texts@.len() == self.lists@.len()
                    &&& forall|i: int|
                        0 <= i < texts@.len() ==> (#[trigger] texts@[i])@ == self.lists@[i].wikitext()
                },
                Err(_) => !self.lists_fit(),
            },
    {
        let mut ret: Vec<String> = Vec::new();
        let mut i: usize = 0;
        while i < self.lists.len()
            invariant
                i <= self.lists.len(),
                ret@.len() == i,
                forall|j: int| 0 <= j < i ==> (#[trigger] self.lists@[j]).rows_fit(),
                forall|j: int| 0 <= j < i ==> (#[trigger] ret@[j])@ == self.lists@[j].wikitext(),
            decreases self.lists.len() - i,
        {
            match self.lists[i].as_wikitext() {
                Ok(text) => {
                    ret.push(text);
                },
                Err(e) => {
                    return Err(e);
                },
            }
            i += 1;
        }
        Ok(ret)
    }
}

} // verus!
