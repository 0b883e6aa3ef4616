//! The patch stages as one run that is driven from outside: the list says
//! what it needs to know next, the caller finds it out and hands it back.
//! The order of the stages is fixed: load the entities that the rows refer
//! to; keep only rows without a local page where the link style asks for it;
//! put in links to local pages; look up which labels are titles of local
//! pages; take out files hidden by local files; group the rows into sections;
//! sort.

use vstd::prelude::*;
use vstd::string::*;
use crate::entity::Entity;
use crate::listeria_list::ListeriaList;
use crate::params::LinksType;
use crate::pipeline::distinct;
use crate::result_row::rows_view;
use crate::shadow::{recorded, visible_rows};
use crate::text::views;

verus! {

/// How far the patch stages have run.
#[derive(Debug, Clone, Copy, PartialEq, Eq, Structural)]
pub enum PatchState {
    /// Nothing has run.
    Start,
    /// The identifiers to load were handed out.
    AwaitingEntities,
    /// The labels to look up were handed out.
    AwaitingPages,
    /// The file names to look up were handed out.
    AwaitingFiles,
    /// Every stage has run: the list can be rendered.
    Finished,
}

/// What the caller is asked to do next.
#[derive(Debug)]
pub enum PatchAction {
    /// Load these entities and hand them back.
    LoadEntities(Vec<String>),
    /// Find out for each of these titles whether a local page has it.
    CheckPages(Vec<String>),
    /// Find out which of these file names are hidden by a local file.
    CheckFiles(Vec<String>),
    /// Nothing: the stages are through.
    Finish,
}

/// Whether a local page with a title exists. A lookup that failed is handed
/// back as a page that does not exist.
#[derive(Debug, Clone)]
pub struct PageCheck {
    pub title: String,
    pub exists: bool,
}

/// What the caller hands back.
#[derive(Debug)]
pub enum PatchEvent {
    /// The stages are to begin.
    Begin,
    /// The entities that were loaded.
    EntitiesLoaded(Vec<Entity>),
    /// What was found out about the titles.
    PagesChecked(Vec<PageCheck>),
    /// The file names that are hidden by a local file. A lookup that failed
    /// counts as a file that is not hidden.
    FilesChecked(Vec<String>),
}

/// The record of known pages after the first `n` checks are entered.
pub open spec fn pages_after(known: Map<Seq<char>, bool>, checks: Seq<PageCheck>, n: int) -> Map<
    Seq<char>,
    bool,
>
    decreases n,
{
    if n <= 0 || n > checks.len() {
        known
    } else {
        pages_after(known, checks, n - 1).insert(checks[n - 1].title@, checks[n - 1].exists)
    }
}

impl ListeriaList {
    /// Only the loaded entities differ from `before`: `loaded` was added at the end.
    pub open spec fn loaded_from(&self, before: &Self, loaded: Seq<Entity>) -> bool {
        &&& self.entities.entities@ == before.entities.entities@ + loaded
        &&& self.language == before.language
        &&& self.wiki == before.wiki
        &&& self.template == before.template
        &&& self.params == before.params
        &&& self.columns == before.columns
        &&& self.sparql_first_variable == before.sparql_first_variable
        &&& self.sparql_rows == before.sparql_rows
        &&& self.results == before.results
        &&& self.section_names == before.section_names
        &&& self.shadow_files == before.shadow_files
        &&& self.local_page_cache == before.local_page_cache
    }

    /// The list is `before` after the stage that keeps only rows without a local page.
    pub open spec fn redlinks_only_of(&self, before: &Self) -> bool {
        &&& self.same_setting(before)
        &&& before.params.links == LinksType::RedOnly ==> rows_view(self.results@)
            == before.rows_without_page(rows_view(before.results@), before.results@.len() as int)
        &&& before.params.links != LinksType::RedOnly ==> rows_view(self.results@) == rows_view(
            before.results@,
        )
    }

    /// The list is `before` after the stage that puts in links to local pages.
    pub open spec fn localized_of(&self, before: &Self) -> bool {
        &&& self.same_setting(before)
        &&& rows_view(self.results@) == before.localized_rows(rows_view(before.results@))
    }

    /// Only the record of known pages differs from `before`: `checks` were entered.
    pub open spec fn pages_recorded_of(&self, before: &Self, checks: Seq<PageCheck>) -> bool {
        &&& self.local_page_cache@ == pages_after(
            before.local_page_cache@,
            checks,
            checks.len() as int,
        )
        &&& before.local_page_cache.wf() ==> self.local_page_cache.wf()
        &&& self.language == before.language
        &&& self.wiki == before.wiki
        &&& self.params == before.params
        &&& self.columns == before.columns
        &&& self.entities == before.entities
        &&& self.results == before.results
        &&& self.shadow_files == before.shadow_files
    }

    /// The list is `before` after the stage that takes out the hidden files `found`.
    pub open spec fn shadows_removed_of(&self, before: &Self, found: Seq<Seq<char>>) -> bool {
        &&& rows_view(self.results@) == visible_rows(rows_view(before.results@), found)
        &&& views(self.shadow_files@) == recorded(
            views(before.shadow_files@),
            found,
            found.len() as int,
        )
        &&& self.language == before.language
        &&& self.wiki == before.wiki
        &&& self.template == before.template
        &&& self.params == before.params
        &&& self.columns == before.columns
        &&& self.entities == before.entities
        &&& self.section_names == before.section_names
        &&& self.local_page_cache == before.local_page_cache
    }

    /// The list is `before` after the sort stage.
    pub open spec fn sorted_of(&self, before: &Self) -> bool {
        &&& self.same_setting(before)
        &&& rows_view(self.results@) == before.sorted_rows(
            rows_view(before.results@),
            before.params.sort_ascending,
        )
    }

    /// Adds loaded entities to the store.
    pub fn add_entities(&mut self, loaded: Vec<Entity>)
        ensures
            final(self).loaded_from(old(self), loaded@),
    {
        let mut loaded = loaded;
        self.entities.entities.append(&mut loaded);
    }

    /// Enters what was found out about page titles into the record of known pages.
    pub fn record_pages(&mut self, checks: &Vec<PageCheck>)
        ensures
            final(self).pages_recorded_of(old(self), checks@),
    {
        let mut i: usize = 0;
        while i < checks.len()
            invariant
                i <= checks.len(),
                old(self).local_page_cache.wf() ==> self.local_page_cache.wf(),
                self.local_page_cache@ == pages_after(old(self).local_page_cache@, checks@, i as int),
                self.language == old(self).language,
                self.wiki == old(self).wiki,
                self.params == old(self).params,
                self.columns == old(self).columns,
                self.entities == old(self).entities,
                self.results == old(self).results,
                self.shadow_files == old(self).shadow_files,
            decreases checks.len() - i,
        {
            self.set_local_page(checks[i].title.clone(), checks[i].exists);
            i += 1;
        }
    }

    /// One step of the patch stages. In the state `state` the list takes the
    /// event that answers what it asked for, runs the stages that can run
    /// now, and says what it needs next. An event that does not answer what
    /// was asked for is refused, and nothing changes.
    ///
    /// `checked_wikis` names the wikis on which files hidden by local files
    /// are looked for.
    pub fn patch_results(&mut self, state: PatchState, event: PatchEvent, checked_wikis: &Vec<String>) -> (r:
        Option<(PatchState, PatchAction)>)
        ensures
            old(self).local_page_cache.wf() ==> final(self).local_page_cache.wf(),
            match (state, event) {
                (PatchState::Start, PatchEvent::Begin) => {
                    &&& *final(self) == *old(self)
                    &&& r matches Some((PatchState::AwaitingEntities, PatchAction::LoadEntities(ids)))
                    &&& views(ids@) == distinct(
                        old(self).referenced_ids(),
                        old(self).referenced_ids().len() as int,
                    )
                },
                (PatchState::AwaitingEntities, PatchEvent::EntitiesLoaded(loaded)) => {
                    &&& r matches Some((PatchState::AwaitingPages, PatchAction::CheckPages(labels)))
                    &&& exists|a: ListeriaList, b: ListeriaList|
                        {
                            &&& #[trigger] a.loaded_from(old(self), loaded@)
                            &&& #[trigger] b.redlinks_only_of(&a)
                            &&& final(self).localized_of(&b)
                        }
                    &&& final(self).marks_missing_pages() ==> views(labels@) == distinct(
                        final(self).row_labels(),
                        final(self).row_labels().len() as int,
                    )
                    &&& !final(self).marks_missing_pages() ==> labels@.len() == 0
                },
                (PatchState::AwaitingPages, PatchEvent::PagesChecked(checks)) => {
                    &&& r matches Some((PatchState::AwaitingFiles, PatchAction::CheckFiles(files)))
                    &&& final(self).pages_recorded_of(old(self), checks@)
                    &&& views(checked_wikis@).contains(final(self).wiki@) ==> views(files@)
                        == distinct(final(self).row_files(), final(self).row_files().len() as int)
                    &&& !views(checked_wikis@).contains(final(self).wiki@) ==> files@.len() == 0
                },
                (PatchState::AwaitingFiles, PatchEvent::FilesChecked(found)) => {
                    &&& r matches Some((PatchState::Finished, PatchAction::Finish))
                    &&& exists|a: ListeriaList, b: ListeriaList|
                        {
                            &&& #[trigger] a.shadows_removed_of(old(self), views(found@))
                            &&& #[trigger] b.sectioned_of(&a)
                            &&& final(self).sorted_of(&b)
                        }
                },
                _ => r is None && *final(self) == *old(self),
            },
    {
        match state {
            PatchState::Start => match event {
                PatchEvent::Begin => {
                    let ids = self.gather_entity_ids();
                    Some((PatchState::AwaitingEntities, PatchAction::LoadEntities(ids)))
                },
                _ => None,
            },
            PatchState::AwaitingEntities => match event {
                PatchEvent::EntitiesLoaded(loaded) => {
                    let ghost given = loaded@;
                    self.add_entities(loaded);
                    let ghost a = *self;
                    self.process_redlinks_only();
                    let ghost b = *self;
                    self.localize_item_links();
                    assert(a.loaded_from(old(self), given));
                    assert(b.redlinks_only_of(&a));
                    assert(self.localized_of(&b));
                    let labels = self.labels_to_check();
                    Some((PatchState::AwaitingPages, PatchAction::CheckPages(labels)))
                },
                _ => None,
            },
            PatchState::AwaitingPages => match event {
                PatchEvent::PagesChecked(checks) => {
                    self.record_pages(&checks);
                    let files = self.files_to_check(checked_wikis);
                    Some((PatchState::AwaitingFiles, PatchAction::CheckFiles(files)))
                },
                _ => None,
            },
            PatchState::AwaitingFiles => match event {
                PatchEvent::FilesChecked(found) => {
                    self.remove_shadow_files(&found);
                    let ghost a = *self;
                    self.assign_sections();
                    let ghost b = *self;
                    self.sort_results();
                    assert(a.shadows_removed_of(old(self), views(found@)));
                    assert(b.sectioned_of(&a));
                    assert(self.sorted_of(&b));
                    Some((PatchState::Finished, PatchAction::Finish))
                },
                _ => None,
            },
            PatchState::Finished => None,
        }
    }
}

} // verus!
