//! The specification's topic pages: their slugs, the navigation entries,
//! the text of each page and the table that locates every production.
use vstd::prelude::*;

use crate::grammar::{find_group, Grammar, Production};
use crate::text::{
    decimal, is_padded_numeral, lemma_zero_pad2_numeral, push_char, push_decimal, push_slug_segment, push_zero_padded2, slug_segment,
    zero_pad2,
};

verus! {

/// The slug of the `ti`-th topic of the `si`-th section (both counted from
/// zero), given the two titles: `"{si+1:0>2}-{section}/{ti+1:0>2}-{topic}"`,
/// where each title is in its slug form.
pub open spec fn slug_of(si: nat, section_title: Seq<char>, ti: nat, topic_title: Seq<char>) -> Seq<
    char,
> {
    zero_pad2(decimal(si + 1)) + seq!['-'] + slug_segment(section_title) + seq!['/'] + zero_pad2(
        decimal(ti + 1),
    ) + seq!['-'] + slug_segment(topic_title)
}

/// The slug of topic `(si, ti)` of the grammar's manifest.
pub open spec fn topic_slug(g: &Grammar, si: int, ti: int) -> Seq<char> {
    slug_of(si as nat, g.section(si).title@, ti as nat, g.topic(si, ti).title@)
}

/// Builds the slug of topic `topic_index` of section `section_index`: the
/// directory of its page, relative to the generated folder.
pub fn generate_topic_slug(grammar: &Grammar, section_index: usize, topic_index: usize) -> (slug:
    String)
    requires
        grammar.has_topic(section_index as int, topic_index as int),
    ensures
        slug@ == topic_slug(grammar, section_index as int, topic_index as int),
{
    let section = &grammar.manifest.sections[section_index];
    let topic = &section.topics[topic_index];
    let _ = grammar.manifest.sections.len();
    let _ = section.topics.len();
    let mut slug = String::new();
    push_zero_padded2(&mut slug, section_index + 1);
    push_char(&mut slug, '-');
    push_slug_segment(&mut slug, section.title.as_str());
    push_char(&mut slug, '/');
    push_zero_padded2(&mut slug, topic_index + 1);
    push_char(&mut slug, '-');
    push_slug_segment(&mut slug, topic.title.as_str());
    proof {
        assert(slug@ =~= topic_slug(grammar, section_index as int, topic_index as int));
    }
    slug
}


/// Where a page links to for a production: the production's name and the
/// directory of the page that lists it, relative to a topic page.
pub struct ProductionLocation {
    pub name: String,
    pub location: String,
}

/// The table of production locations that the pages are written with.
/// Entries come in the order in which the topics list their productions;
/// for a name that occurs more than once, the last entry counts.
pub struct SpecProductionContext {
    pub productions_location: Vec<ProductionLocation>,
}

/// The link from a topic page to the page of topic `(si, ti)`:
/// `"../../"` followed by that topic's slug.
pub open spec fn topic_location(g: &Grammar, si: int, ti: int) -> Seq<char> {
    "../../"@ + topic_slug(g, si, ti)
}

/// The productions that the page of topic `(si, ti)` lists: those of the
/// first group named by the topic's definition, or none.
pub open spec fn topic_productions(g: &Grammar, si: int, ti: int) -> Seq<Production> {
    match g.topic(si, ti).definition {
        Some(d) => g.productions@[g.group_index(d@)].productions@,
        None => Seq::empty(),
    }
}

/// The location entries that topic `(si, ti)` contributes, in order.
pub open spec fn topic_locations(g: &Grammar, si: int, ti: int) -> Seq<(Seq<char>, Seq<char>)> {
    topic_productions(g, si, ti).map_values(|p: Production| (p.name@, topic_location(g, si, ti)))
}

/// The location entries of the first `n` topics of section `si`.
pub open spec fn section_locations(g: &Grammar, si: int, n: nat) -> Seq<(Seq<char>, Seq<char>)>
    decreases n,
{
    if n == 0 {
        Seq::empty()
    } else {
        section_locations(g, si, (n - 1) as nat) + topic_locations(g, si, n - 1)
    }
}

/// The location entries of the first `m` sections.
pub open spec fn locations_upto(g: &Grammar, m: nat) -> Seq<(Seq<char>, Seq<char>)>
    decreases m,
{
    if m == 0 {
        Seq::empty()
    } else {
        locations_upto(g, (m - 1) as nat) + section_locations(g, m - 1, g.num_topics(m - 1))
    }
}

/// All location entries of the grammar, in the order of the manifest.
pub open spec fn production_locations(g: &Grammar) -> Seq<(Seq<char>, Seq<char>)> {
    locations_upto(g, g.num_sections())
}

/// The map that a list of entries builds when later entries overwrite
/// earlier ones with the same name.
pub open spec fn location_map(pairs: Seq<(Seq<char>, Seq<char>)>) -> Map<Seq<char>, Seq<char>>
    decreases pairs.len(),
{
    if pairs.len() == 0 {
        Map::empty()
    } else {
        location_map(pairs.drop_last()).insert(pairs.last().0, pairs.last().1)
    }
}

impl SpecProductionContext {
    /// The entries, as (name, location) pairs.
    pub open spec fn entries(&self) -> Seq<(Seq<char>, Seq<char>)> {
        self.productions_location@.map_values(|e: ProductionLocation| (e.name@, e.location@))
    }

    /// The table as a map from production name to location.
    pub open spec fn locations(&self) -> Map<Seq<char>, Seq<char>> {
        location_map(self.entries())
    }
}

/// Entries after index `i` with other names do not change what the map
/// holds for `name`.
proof fn lemma_location_map_tail(pairs: Seq<(Seq<char>, Seq<char>)>, i: int, name: Seq<char>)
    requires
        0 <= i <= pairs.len(),
        forall|j: int| i <= j < pairs.len() ==> pairs[j].0 != name,
    ensures
        location_map(pairs).dom().contains(name) == location_map(pairs.subrange(0, i)).dom().contains(name),
        location_map(pairs)[name] == location_map(pairs.subrange(0, i))[name],
    decreases pairs.len() - i,
{
    if i < pairs.len() {
        let shorter = pairs.drop_last();
        assert(shorter.subrange(0, i) =~= pairs.subrange(0, i));
        lemma_location_map_tail(shorter, i, name);
    } else {
        assert(pairs.subrange(0, i) =~= pairs);
    }
}

/// A name that no entry of the table carries has no location.
pub proof fn lemma_location_map_absent(pairs: Seq<(Seq<char>, Seq<char>)>, name: Seq<char>)
    requires
        forall|j: int| 0 <= j < pairs.len() ==> pairs[j].0 != name,
    ensures
        !location_map(pairs).dom().contains(name),
{
    lemma_location_map_tail(pairs, 0, name);
    assert(pairs.subrange(0, 0) =~= Seq::<(Seq<char>, Seq<char>)>::empty());
}

/// Later entries win: a name's location is that of the last entry with the
/// name, whatever earlier entries with it say.
pub proof fn lemma_location_map_last(pairs: Seq<(Seq<char>, Seq<char>)>, i: int)
    requires
        0 <= i < pairs.len(),
        forall|j: int| i < j < pairs.len() ==> pairs[j].0 != pairs[i].0,
    ensures
        location_map(pairs).dom().contains(pairs[i].0),
        location_map(pairs)[pairs[i].0] == pairs[i].1,
{
    lemma_location_map_tail(pairs, i + 1, pairs[i].0);
    let pre = pairs.subrange(0, i + 1);
    assert(pre.drop_last() =~= pairs.subrange(0, i));
}

impl SpecProductionContext {
    /// The location of the production called `name`: that of the last
    /// entry with this name, or `None` where no entry has it.
    pub fn location(&self, name: &String) -> (loc: Option<&String>)
        ensures
            loc is Some <==> self.locations().dom().contains(name@),
            loc matches Some(l) ==> l@ == self.locations()[name@],
    {
        let ghost pairs = self.entries();
        let mut i = self.productions_location.len();
        while i > 0
            invariant
                i <= self.productions_location@.len(),
                pairs == self.entries(),
                forall|j: int| i <= j < pairs.len() ==> pairs[j].0 != name@,
            decreases i,
        {
            let entry = &self.productions_location[i - 1];
            if entry.name == *name {
                proof {
                    lemma_location_map_last(pairs, i - 1);
                }
                return Some(&entry.location);
            }
            i = i - 1;
        }
        proof {
            lemma_location_map_absent(pairs, name@);
        }
        None
    }
}

fn topic_location_string(grammar: &Grammar, section_index: usize, topic_index: usize) -> (loc:
    String)
    requires
        grammar.has_topic(section_index as int, topic_index as int),
    ensures
        loc@ == topic_location(grammar, section_index as int, topic_index as int),
{
    let slug = generate_topic_slug(grammar, section_index, topic_index);
    let mut loc = String::new();
    loc.append("../../");
    loc.append(slug.as_str());
    loc
}

/// Builds the table that locates every production: for each topic, in the
/// manifest's order, and for each production that its page lists, the
/// production's name and the link to that page.
pub fn generate_context(grammar: &Grammar) -> (context: SpecProductionContext)
    requires
        grammar.definitions_resolved(),
    ensures
        context.entries() == production_locations(grammar),
{
    let mut table: Vec<ProductionLocation> = Vec::new();
    let n_sections = grammar.manifest.sections.len();
    let mut si: usize = 0;
    while si < n_sections
        invariant
            n_sections == grammar.num_sections(),
            si <= n_sections,
            grammar.definitions_resolved(),
            table@.map_values(|e: ProductionLocation| (e.name@, e.location@)) =~= locations_upto(
                grammar,
                si as nat,
            ),
        decreases n_sections - si,
    {
        let section = &grammar.manifest.sections[si];
        let n_topics = section.topics.len();
        let ghost before = table@.map_values(|e: ProductionLocation| (e.name@, e.location@));
        let mut ti: usize = 0;
        while ti < n_topics
            invariant
                n_sections == grammar.num_sections(),
                si < n_sections,
                *section == grammar.section(si as int),
                n_topics == grammar.num_topics(si as int),
                ti <= n_topics,
                grammar.definitions_resolved(),
                before == locations_upto(grammar, si as nat),
                table@.map_values(|e: ProductionLocation| (e.name@, e.location@)) =~= before
                    + section_locations(grammar, si as int, ti as nat),
            decreases n_topics - ti,
        {
            let topic = &section.topics[ti];
            assert(*topic == grammar.topic(si as int, ti as int));
            match &topic.definition {
                Some(definition) => {
                    assert(grammar.has_topic(si as int, ti as int));
                    let k = find_group(grammar, definition);
                    let group = &grammar.productions[k];
                    let location = topic_location_string(grammar, si, ti);
                    let ghost mid = table@.map_values(
                        |e: ProductionLocation| (e.name@, e.location@),
                    );
                    let n_productions = group.productions.len();
                    let mut pi: usize = 0;
                    while pi < n_productions
                        invariant
                            n_productions == group.productions@.len(),
                            pi <= n_productions,
                            location@ == topic_location(grammar, si as int, ti as int),
                            table@.map_values(|e: ProductionLocation| (e.name@, e.location@))
                                =~= mid + group.productions@.subrange(0, pi as int).map_values(
                                |p: Production| (p.name@, topic_location(grammar, si as int, ti as int)),
                            ),
                        decreases n_productions - pi,
                    {
                        let entry = ProductionLocation {
                            name: group.productions[pi].name.clone(),
                            location: location.clone(),
                        };
                        let ghost prev = table@;
                        table.push(entry);
                        proof {
                            let f = |e: ProductionLocation| (e.name@, e.location@);
                            let h = |p: Production| (p.name@, topic_location(grammar, si as int, ti as int));
                            assert(table@ =~= prev.push(entry));
                            assert(table@.map_values(f) =~= prev.map_values(f).push(f(entry)));
                            assert(group.productions@.subrange(0, pi + 1).map_values(h)
                                =~= group.productions@.subrange(0, pi as int).map_values(h).push(h(group.productions@[pi as int])));
                        }
                        pi = pi + 1;
                    }
                    assert(group.productions@.subrange(0, n_productions as int)
                        =~= group.productions@);
                    assert(topic_productions(grammar, si as int, ti as int) == group.productions@);
                },
                None => {},
            }
            assert(section_locations(grammar, si as int, (ti + 1) as nat) == section_locations(
                grammar,
                si as int,
                ti as nat,
            ) + topic_locations(grammar, si as int, ti as int));
            ti = ti + 1;
        }
        si = si + 1;
    }
    SpecProductionContext { productions_location: table }
}


/// An entry of the specification's navigation.
pub struct NavigationEntry {
    /// 1 for a section, 2 for a topic.
    pub indentation_level: usize,
    pub title: String,
    /// For a topic, its page, relative to the generated folder.
    pub file_path: Option<String>,
}

/// What goes into the page of one topic. The page is `prologue`, then,
/// where `grammar_group` names a production group, each of its productions
/// in order, each preceded by an empty line, and then `epilogue`.
pub struct TopicPage {
    /// The page's file, relative to the generated folder.
    pub file_path: String,
    pub prologue: String,
    /// The index, in the grammar's production groups, of the group whose
    /// productions the page lists.
    pub grammar_group: Option<usize>,
    pub epilogue: String,
}

/// The pages of the specification and the production table that their
/// productions are written with.
pub struct SpecPages {
    pub context: SpecProductionContext,
    pub pages: Vec<TopicPage>,
}

impl NavigationEntry {
    pub open spec fn model(&self) -> (nat, Seq<char>, Option<Seq<char>>) {
        (
            self.indentation_level as nat,
            self.title@,
            match self.file_path {
                Some(p) => Some(p@),
                None => None,
            },
        )
    }
}

impl TopicPage {
    pub open spec fn model(&self) -> (Seq<char>, Seq<char>, Option<int>, Seq<char>) {
        (
            self.file_path@,
            self.prologue@,
            match self.grammar_group {
                Some(k) => Some(k as int),
                None => None,
            },
            self.epilogue@,
        )
    }
}

/// The navigation entries, as models.
pub open spec fn entry_models(v: Seq<NavigationEntry>) -> Seq<(nat, Seq<char>, Option<Seq<char>>)> {
    v.map_values(|e: NavigationEntry| e.model())
}

/// The pages, as models.
pub open spec fn page_models(v: Seq<TopicPage>) -> Seq<(Seq<char>, Seq<char>, Option<int>, Seq<char>)> {
    v.map_values(|p: TopicPage| p.model())
}

/// The file of the page of topic `(si, ti)`: `"{slug}/index.md"`.
pub open spec fn topic_file_path(g: &Grammar, si: int, ti: int) -> Seq<char> {
    topic_slug(g, si, ti) + "/index.md"@
}

/// The navigation title of section `si`: `"{si+1}. {title}"`.
pub open spec fn section_entry_title(g: &Grammar, si: int) -> Seq<char> {
    decimal((si + 1) as nat) + ". "@ + g.section(si).title@
}

/// The navigation title of topic `(si, ti)`: `"{si+1}.{ti+1}. {title}"`.
pub open spec fn topic_entry_title(g: &Grammar, si: int, ti: int) -> Seq<char> {
    decimal((si + 1) as nat) + "."@ + decimal((ti + 1) as nat) + ". "@ + g.topic(si, ti).title@
}

/// The navigation entry of topic `(si, ti)`.
pub open spec fn topic_entry(g: &Grammar, si: int, ti: int) -> (nat, Seq<char>, Option<Seq<char>>) {
    (2, topic_entry_title(g, si, ti), Some(topic_file_path(g, si, ti)))
}

/// The entries of the first `n` topics of section `si`.
pub open spec fn topic_entries(g: &Grammar, si: int, n: nat) -> Seq<(nat, Seq<char>, Option<Seq<char>>)>
    decreases n,
{
    if n == 0 {
        Seq::empty()
    } else {
        topic_entries(g, si, (n - 1) as nat).push(topic_entry(g, si, n - 1))
    }
}

/// The entries of section `si`: its own, then one per topic.
pub open spec fn section_entries(g: &Grammar, si: int) -> Seq<(nat, Seq<char>, Option<Seq<char>>)> {
    seq![(1nat, section_entry_title(g, si), None)] + topic_entries(g, si, g.num_topics(si))
}

/// The entries of the first `m` sections.
pub open spec fn entries_upto(g: &Grammar, m: nat) -> Seq<(nat, Seq<char>, Option<Seq<char>>)>
    decreases m,
{
    if m == 0 {
        Seq::empty()
    } else {
        entries_upto(g, (m - 1) as nat) + section_entries(g, m - 1)
    }
}

/// All navigation entries of the specification.
pub open spec fn navigation_entries(g: &Grammar) -> Seq<(nat, Seq<char>, Option<Seq<char>>)> {
    entries_upto(g, g.num_sections())
}

/// The opening of every topic page.
pub open spec fn page_header(title: Seq<char>) -> Seq<char> {
    "# "@ + title
        + "\n\n<!-- markdownlint-disable no-inline-html -->\n<!-- markdownlint-disable no-space-in-emphasis -->\n<!-- cSpell:disable -->\n"@
}

/// The text before the productions of a page.
pub open spec fn page_prologue(title: Seq<char>, has_grammar: bool) -> Seq<char> {
    if has_grammar {
        page_header(title)
            + "\n<div class=\"admonition summary\">\n<p class=\"admonition-title\">Grammar</p>\n"@
    } else {
        page_header(title)
    }
}

/// The snippet that a page includes: the topic's notes, or the
/// placeholder for notes still to be written.
pub open spec fn notes_snippet(notes: Option<Seq<char>>) -> Seq<char> {
    match notes {
        Some(n) => n,
        None => "specification/notes/under-construction-snippet.md"@,
    }
}

/// The text after the productions of a page.
pub open spec fn page_epilogue(notes: Option<Seq<char>>, has_grammar: bool) -> Seq<char> {
    (if has_grammar {
        "\n</div>\n"@
    } else {
        Seq::empty()
    }) + "\n--8<-- \""@ + notes_snippet(notes) + "\"\n"@
}

/// The notes of topic `(si, ti)`, as a model.
pub open spec fn topic_notes(g: &Grammar, si: int, ti: int) -> Option<Seq<char>> {
    match g.topic(si, ti).notes {
        Some(n) => Some(n@),
        None => None,
    }
}

/// The page of topic `(si, ti)`.
pub open spec fn topic_page(g: &Grammar, si: int, ti: int) -> (Seq<char>, Seq<char>, Option<int>, Seq<char>) {
    let has_grammar = g.topic(si, ti).definition is Some;
    (
        topic_file_path(g, si, ti),
        page_prologue(g.topic(si, ti).title@, has_grammar),
        match g.topic(si, ti).definition {
            Some(d) => Some(g.group_index(d@)),
            None => None,
        },
        page_epilogue(topic_notes(g, si, ti), has_grammar),
    )
}

/// The pages of the first `n` topics of section `si`.
pub open spec fn section_pages(g: &Grammar, si: int, n: nat) -> Seq<(Seq<char>, Seq<char>, Option<int>, Seq<char>)>
    decreases n,
{
    if n == 0 {
        Seq::empty()
    } else {
        section_pages(g, si, (n - 1) as nat).push(topic_page(g, si, n - 1))
    }
}

/// The pages of the first `m` sections.
pub open spec fn pages_upto(g: &Grammar, m: nat) -> Seq<(Seq<char>, Seq<char>, Option<int>, Seq<char>)>
    decreases m,
{
    if m == 0 {
        Seq::empty()
    } else {
        pages_upto(g, (m - 1) as nat) + section_pages(g, m - 1, g.num_topics(m - 1))
    }
}

/// All topic pages, in the order of the manifest.
pub open spec fn topic_pages(g: &Grammar) -> Seq<(Seq<char>, Seq<char>, Option<int>, Seq<char>)> {
    pages_upto(g, g.num_sections())
}

fn section_title_string(grammar: &Grammar, si: usize) -> (t: String)
    requires
        si < grammar.num_sections(),
    ensures
        t@ == section_entry_title(grammar, si as int),
{
    let _ = grammar.manifest.sections.len();
    let mut t = String::new();
    push_decimal(&mut t, si + 1);
    t.append(". ");
    t.append(grammar.manifest.sections[si].title.as_str());
    t
}

fn topic_title_string(grammar: &Grammar, si: usize, ti: usize) -> (t: String)
    requires
        grammar.has_topic(si as int, ti as int),
    ensures
        t@ == topic_entry_title(grammar, si as int, ti as int),
{
    let _ = grammar.manifest.sections.len();
    let section = &grammar.manifest.sections[si];
    let _ = section.topics.len();
    let mut t = String::new();
    push_decimal(&mut t, si + 1);
    t.append(".");
    push_decimal(&mut t, ti + 1);
    t.append(". ");
    t.append(section.topics[ti].title.as_str());
    t
}

fn build_topic_page(grammar: &Grammar, si: usize, ti: usize) -> (page: TopicPage)
    requires
        grammar.has_topic(si as int, ti as int),
        grammar.definitions_resolved(),
    ensures
        page.model() == topic_page(grammar, si as int, ti as int),
{
    let topic = &grammar.manifest.sections[si].topics[ti];
    assert(*topic == grammar.topic(si as int, ti as int));
    let slug = generate_topic_slug(grammar, si, ti);
    let mut file_path = String::new();
    file_path.append(slug.as_str());
    file_path.append("/index.md");

    let mut prologue = String::new();
    prologue.append("# ");
    prologue.append(topic.title.as_str());
    prologue.append(
        "\n\n<!-- markdownlint-disable no-inline-html -->\n<!-- markdownlint-disable no-space-in-emphasis -->\n<!-- cSpell:disable -->\n",
    );
    let mut epilogue = String::new();
    let grammar_group = match &topic.definition {
        Some(definition) => {
            prologue.append(
                "\n<div class=\"admonition summary\">\n<p class=\"admonition-title\">Grammar</p>\n",
            );
            epilogue.append("\n</div>\n");
            Some(find_group(grammar, definition))
        },
        None => None,
    };
    epilogue.append("\n--8<-- \"");
    match &topic.notes {
        Some(notes) => epilogue.append(notes.as_str()),
        None => epilogue.append("specification/notes/under-construction-snippet.md"),
    }
    epilogue.append("\"\n");
    let page = TopicPage { file_path, prologue, grammar_group, epilogue };
    proof {
        let t = topic_page(grammar, si as int, ti as int);
        assert(page.file_path@ =~= t.0);
        assert(page.prologue@ =~= t.1);
        assert(page.epilogue@ =~= t.3);
    }
    page
}

/// Lays out the specification: appends to `entries` the navigation, a
/// section entry followed by an entry per topic for each section, and
/// returns the production table and the page of every topic, in the order
/// of the manifest.
pub fn generate_spec_sections(grammar: &Grammar, entries: &mut Vec<NavigationEntry>) -> (out: SpecPages)
    requires
        grammar.definitions_resolved(),
    ensures
        entry_models(final(entries)@) == entry_models(old(entries)@) + navigation_entries(grammar),
        out.context.entries() == production_locations(grammar),
        page_models(out.pages@) == topic_pages(grammar),
{
    let context = generate_context(grammar);
    let ghost start = entry_models(entries@);
    let mut pages: Vec<TopicPage> = Vec::new();
    let n_sections = grammar.manifest.sections.len();
    let mut si: usize = 0;
    while si < n_sections
        invariant
            n_sections == grammar.num_sections(),
            si <= n_sections,
            grammar.definitions_resolved(),
            entry_models(entries@) =~= start + entries_upto(grammar, si as nat),
            page_models(pages@) =~= pages_upto(grammar, si as nat),
        decreases n_sections - si,
    {
        let section = &grammar.manifest.sections[si];
        let n_topics = section.topics.len();
        let ghost entries_before = entry_models(entries@);
        let ghost pages_before = page_models(pages@);
        let title = section_title_string(grammar, si);
        let ghost prev = entries@;
        let entry = NavigationEntry { indentation_level: 1, title, file_path: None };
        entries.push(entry);
        proof {
            assert(entries@ =~= prev.push(entry));
            assert(entry_models(entries@) =~= entry_models(prev).push(entry.model()));
        }
        let mut ti: usize = 0;
        while ti < n_topics
            invariant
                n_sections == grammar.num_sections(),
                si < n_sections,
                *section == grammar.section(si as int),
                n_topics == grammar.num_topics(si as int),
                ti <= n_topics,
                grammar.definitions_resolved(),
                entry_models(entries@) =~= entries_before + seq![
                    (1nat, section_entry_title(grammar, si as int), None),
                ] + topic_entries(grammar, si as int, ti as nat),
                page_models(pages@) =~= pages_before + section_pages(grammar, si as int, ti as nat),
            decreases n_topics - ti,
        {
            let title = topic_title_string(grammar, si, ti);
            let page = build_topic_page(grammar, si, ti);
            let mut file_path = String::new();
            file_path.append(page.file_path.as_str());
            let ghost prev_e = entries@;
            let ghost prev_p = pages@;
            let entry = NavigationEntry { indentation_level: 2, title, file_path: Some(file_path) };
            entries.push(entry);
            pages.push(page);
            proof {
                assert(entries@ =~= prev_e.push(entry));
                assert(entry_models(entries@) =~= entry_models(prev_e).push(entry.model()));
                assert(pages@ =~= prev_p.push(page));
                assert(page_models(pages@) =~= page_models(prev_p).push(page.model()));
            }
            ti = ti + 1;
        }
        si = si + 1;
    }
    SpecPages { context, pages }
}


/// The page of topic `(si, ti)` lists a production called `name`.
pub open spec fn listed_at(g: &Grammar, name: Seq<char>, si: int, ti: int) -> bool {
    &&& g.has_topic(si, ti)
    &&& exists|k: int|
        0 <= k < topic_productions(g, si, ti).len() && #[trigger] topic_productions(g, si, ti)[k].name@
            == name
}

/// The entry `e` is one that topic `(si, ti)` contributes to the table.
spec fn entry_of_topic(g: &Grammar, e: (Seq<char>, Seq<char>), si: int, ti: int) -> bool {
    listed_at(g, e.0, si, ti) && e.1 == "../../"@ + topic_slug(g, si, ti)
}

/// The entry `e` is one that some of the first `n` topics of section `si`
/// contribute.
spec fn entry_from_section(g: &Grammar, e: (Seq<char>, Seq<char>), si: int, n: nat) -> bool {
    exists|ti: int| 0 <= ti < n && #[trigger] entry_of_topic(g, e, si, ti)
}

/// The entry `e` is one that some topic of the first `m` sections
/// contributes.
spec fn entry_from_sections(g: &Grammar, e: (Seq<char>, Seq<char>), m: nat) -> bool {
    exists|si: int, ti: int| 0 <= si < m && #[trigger] entry_of_topic(g, e, si, ti)
}

proof fn lemma_location_map_dom(pairs: Seq<(Seq<char>, Seq<char>)>, name: Seq<char>)
    ensures
        location_map(pairs).dom().contains(name) <==> exists|i: int|
            0 <= i < pairs.len() && #[trigger] pairs[i].0 == name,
        location_map(pairs).dom().contains(name) ==> exists|i: int|
            0 <= i < pairs.len() && #[trigger] pairs[i].0 == name && location_map(pairs)[name]
                == pairs[i].1,
    decreases pairs.len(),
{
    if pairs.len() > 0 {
        let shorter = pairs.drop_last();
        lemma_location_map_dom(shorter, name);
        if pairs.last().0 == name {
            assert(pairs[pairs.len() - 1].0 == name);
        } else if location_map(shorter).dom().contains(name) {
            let i = choose|i: int|
                0 <= i < shorter.len() && #[trigger] shorter[i].0 == name && location_map(shorter)[name]
                    == shorter[i].1;
            assert(pairs[i].0 == name);
        } else {
            assert forall|i: int| 0 <= i < pairs.len() implies #[trigger] pairs[i].0 != name by {
                if i < shorter.len() {
                    assert(shorter[i] == pairs[i]);
                }
            }
        }
    }
}

proof fn lemma_section_entries_from_topics(g: &Grammar, si: int, n: nat)
    requires
        0 <= si < g.num_sections(),
        n <= g.num_topics(si),
    ensures
        forall|i: int|
            #![trigger section_locations(g, si, n)[i]]
            0 <= i < section_locations(g, si, n).len() ==> entry_from_section(g, section_locations(g, si, n)[i], si, n),
    decreases n,
{
    if n > 0 {
        let prev = section_locations(g, si, (n - 1) as nat);
        let tl = topic_locations(g, si, n - 1);
        lemma_section_entries_from_topics(g, si, (n - 1) as nat);
        assert forall|i: int| #![trigger section_locations(g, si, n)[i]] 0 <= i < section_locations(g, si, n).len() implies entry_from_section(g, section_locations(g, si, n)[i], si, n) by {
            let all = section_locations(g, si, n);
            assert(all == prev + tl);
            if i < prev.len() {
                assert(all[i] == prev[i]);
                assert(entry_from_section(g, prev[i], si, (n - 1) as nat));
                let ti = choose|ti: int| 0 <= ti < n - 1 && #[trigger] entry_of_topic(g, prev[i], si, ti);
                assert(entry_of_topic(g, all[i], si, ti));
            } else {
                let k = i - prev.len();
                assert(all[i] == tl[k]);
                assert(topic_productions(g, si, n - 1)[k].name@ == tl[k].0);
                assert(entry_of_topic(g, all[i], si, n - 1));
            }
        }
    } else {
        assert(section_locations(g, si, n) =~= Seq::empty());
    }
}

proof fn lemma_entries_from_topics(g: &Grammar, m: nat)
    requires
        m <= g.num_sections(),
    ensures
        forall|i: int|
            #![trigger locations_upto(g, m)[i]]
            0 <= i < locations_upto(g, m).len() ==> entry_from_sections(g, locations_upto(g, m)[i], m),
    decreases m,
{
    if m > 0 {
        let prev = locations_upto(g, (m - 1) as nat);
        let sl = section_locations(g, m - 1, g.num_topics(m - 1));
        lemma_entries_from_topics(g, (m - 1) as nat);
        lemma_section_entries_from_topics(g, m - 1, g.num_topics(m - 1));
        assert forall|i: int| #![trigger locations_upto(g, m)[i]] 0 <= i < locations_upto(g, m).len() implies entry_from_sections(g, locations_upto(g, m)[i], m) by {
            let all = locations_upto(g, m);
            assert(all == prev + sl);
            if i < prev.len() {
                assert(all[i] == prev[i]);
                assert(entry_from_sections(g, prev[i], (m - 1) as nat));
                let (si, ti) = choose|si: int, ti: int|
                    0 <= si < m - 1 && #[trigger] entry_of_topic(g, prev[i], si, ti);
                assert(entry_of_topic(g, all[i], si, ti));
            } else {
                let k = i - prev.len();
                assert(all[i] == sl[k]);
                assert(entry_from_section(g, sl[k], m - 1, g.num_topics(m - 1)));
                let ti = choose|ti: int|
                    0 <= ti < g.num_topics(m - 1) && #[trigger] entry_of_topic(g, sl[k], m - 1, ti);
                assert(entry_of_topic(g, all[i], m - 1, ti));
            }
        }
    } else {
        assert(locations_upto(g, m) =~= Seq::empty());
    }
}

proof fn lemma_section_entries_cover(g: &Grammar, name: Seq<char>, si: int, ti: int, n: nat)
    requires
        listed_at(g, name, si, ti),
        ti < n <= g.num_topics(si),
    ensures
        exists|i: int|
            0 <= i < section_locations(g, si, n).len() && #[trigger] section_locations(g, si, n)[i]
                == (name, "../../"@ + topic_slug(g, si, ti)),
    decreases n,
{
    let prev = section_locations(g, si, (n - 1) as nat);
    let tl = topic_locations(g, si, n - 1);
    let all = section_locations(g, si, n);
    assert(all == prev + tl);
    if ti < n - 1 {
        lemma_section_entries_cover(g, name, si, ti, (n - 1) as nat);
        let i = choose|i: int|
            0 <= i < prev.len() && #[trigger] prev[i] == (name, "../../"@ + topic_slug(g, si, ti));
        assert(all[i] == prev[i]);
    } else {
        let k = choose|k: int|
            0 <= k < topic_productions(g, si, ti).len() && #[trigger] topic_productions(g, si, ti)[k].name@
                == name;
        assert(tl[k] == (name, "../../"@ + topic_slug(g, si, ti)));
        assert(all[prev.len() + k] == tl[k]);
    }
}

proof fn lemma_entries_cover(g: &Grammar, name: Seq<char>, si: int, ti: int, m: nat)
    requires
        listed_at(g, name, si, ti),
        si < m <= g.num_sections(),
    ensures
        exists|i: int|
            0 <= i < locations_upto(g, m).len() && #[trigger] locations_upto(g, m)[i] == (
                name,
                "../../"@ + topic_slug(g, si, ti),
            ),
    decreases m,
{
    let prev = locations_upto(g, (m - 1) as nat);
    let sl = section_locations(g, m - 1, g.num_topics(m - 1));
    let all = locations_upto(g, m);
    assert(all == prev + sl);
    if si < m - 1 {
        lemma_entries_cover(g, name, si, ti, (m - 1) as nat);
        let i = choose|i: int|
            0 <= i < prev.len() && #[trigger] prev[i] == (name, "../../"@ + topic_slug(g, si, ti));
        assert(all[i] == prev[i]);
    } else {
        lemma_section_entries_cover(g, name, si, ti, g.num_topics(si));
        let k = choose|k: int|
            0 <= k < sl.len() && #[trigger] sl[k] == (name, "../../"@ + topic_slug(g, si, ti));
        assert(all[prev.len() + k] == sl[k]);
    }
}

/// The production table locates exactly the productions that the pages
/// list, and each one at a page that lists it: a name is in the table if
/// and only if some topic's page lists a production of that name, and its
/// location is then `"../../"` followed by the slug of such a topic, whose
/// page is the file `"{slug}/index.md"`.
pub proof fn lemma_context_locates_listing_page(g: &Grammar, name: Seq<char>)
    ensures
        location_map(production_locations(g)).dom().contains(name) <==> exists|si: int, ti: int|
            #[trigger] listed_at(g, name, si, ti),
        location_map(production_locations(g)).dom().contains(name) ==> exists|si: int, ti: int|
            #[trigger] listed_at(g, name, si, ti) && location_map(production_locations(g))[name]
                == "../../"@ + topic_slug(g, si, ti) && topic_file_path(g, si, ti) == topic_slug(
                g,
                si,
                ti,
            ) + "/index.md"@,
{
    let pairs = production_locations(g);
    lemma_location_map_dom(pairs, name);
    lemma_entries_from_topics(g, g.num_sections());
    if location_map(pairs).dom().contains(name) {
        let i = choose|i: int|
            0 <= i < pairs.len() && #[trigger] pairs[i].0 == name && location_map(pairs)[name]
                == pairs[i].1;
        assert(entry_from_sections(g, pairs[i], g.num_sections()));
        let (si, ti) = choose|si: int, ti: int|
            0 <= si < g.num_sections() && #[trigger] entry_of_topic(g, pairs[i], si, ti);
        assert(listed_at(g, name, si, ti));
    }
    if exists|si: int, ti: int| #[trigger] listed_at(g, name, si, ti) {
        let (si, ti) = choose|si: int, ti: int| #[trigger] listed_at(g, name, si, ti);
        lemma_entries_cover(g, name, si, ti, g.num_sections());
        let i = choose|i: int|
            0 <= i < pairs.len() && #[trigger] pairs[i] == (name, "../../"@ + topic_slug(g, si, ti));
        assert(pairs[i].0 == name);
    }
}

/// The entry `e` names a production that the page of some topic lists,
/// and its location is `"../../"` followed by that same topic's slug.
pub open spec fn points_to_listing_topic(g: &Grammar, e: (Seq<char>, Seq<char>)) -> bool {
    exists|si: int, ti: int|
        #[trigger] listed_at(g, e.0, si, ti) && e.1 == "../../"@ + topic_slug(g, si, ti)
}

/// `e` is one of the entries `pairs`.
pub open spec fn has_entry(pairs: Seq<(Seq<char>, Seq<char>)>, e: (Seq<char>, Seq<char>)) -> bool {
    exists|i: int| 0 <= i < pairs.len() && #[trigger] pairs[i] == e
}

/// Each entry of the production table is contributed by the topic whose
/// page it points to: entry `i` names a production that the page of some
/// topic `(si, ti)` lists, and its location is `"../../"` followed by the
/// slug of that same topic. Conversely, every production that the page of
/// topic `(si, ti)` lists has an entry whose location is `"../../"`
/// followed by the slug of `(si, ti)`.
pub proof fn lemma_context_entries_point_to_their_topic(g: &Grammar)
    ensures
        forall|i: int|
            0 <= i < production_locations(g).len() ==> points_to_listing_topic(
                g,
                #[trigger] production_locations(g)[i],
            ),
        forall|si: int, ti: int, k: int|
            #![trigger topic_productions(g, si, ti)[k]]
            g.has_topic(si, ti) && 0 <= k < topic_productions(g, si, ti).len() ==> has_entry(
                production_locations(g),
                (topic_productions(g, si, ti)[k].name@, "../../"@ + topic_slug(g, si, ti)),
            ),
{
    let pairs = production_locations(g);
    lemma_entries_from_topics(g, g.num_sections());
    assert forall|i: int| 0 <= i < pairs.len() implies points_to_listing_topic(g, #[trigger] pairs[i]) by {
        assert(entry_from_sections(g, pairs[i], g.num_sections()));
        let (si, ti) = choose|si: int, ti: int|
            0 <= si < g.num_sections() && #[trigger] entry_of_topic(g, pairs[i], si, ti);
        assert(listed_at(g, pairs[i].0, si, ti));
    }
    assert forall|si: int, ti: int, k: int|
        #![trigger topic_productions(g, si, ti)[k]]
        g.has_topic(si, ti) && 0 <= k < topic_productions(g, si, ti).len() implies has_entry(
            pairs,
            (topic_productions(g, si, ti)[k].name@, "../../"@ + topic_slug(g, si, ti)),
        ) by {
        let name = topic_productions(g, si, ti)[k].name@;
        assert(listed_at(g, name, si, ti));
        lemma_entries_cover(g, name, si, ti, g.num_sections());
    }
}

/// The navigation entry `e` is the entry of some topic of the first `m`
/// sections, or has no file.
spec fn nav_entry_ok(g: &Grammar, e: (nat, Seq<char>, Option<Seq<char>>), m: nat) -> bool {
    e.2 is None || exists|si: int, ti: int|
        0 <= si < m && g.has_topic(si, ti) && e == #[trigger] topic_entry(g, si, ti)
}

/// The page `p` is the page of some topic of the first `m` sections.
spec fn page_ok(g: &Grammar, p: (Seq<char>, Seq<char>, Option<int>, Seq<char>), m: nat) -> bool {
    exists|si: int, ti: int| 0 <= si < m && g.has_topic(si, ti) && p == #[trigger] topic_page(g, si, ti)
}

proof fn lemma_topic_entries_from_topics(g: &Grammar, si: int, n: nat)
    requires
        0 <= si < g.num_sections(),
        n <= g.num_topics(si),
    ensures
        forall|i: int|
            #![trigger topic_entries(g, si, n)[i]]
            0 <= i < topic_entries(g, si, n).len() ==> topic_entries(g, si, n)[i] == topic_entry(g, si, i),
        topic_entries(g, si, n).len() == n,
        forall|i: int|
            #![trigger section_pages(g, si, n)[i]]
            0 <= i < section_pages(g, si, n).len() ==> section_pages(g, si, n)[i] == topic_page(g, si, i),
        section_pages(g, si, n).len() == n,
    decreases n,
{
    if n > 0 {
        lemma_topic_entries_from_topics(g, si, (n - 1) as nat);
    }
}

#[verifier::spinoff_prover]
proof fn lemma_nav_and_pages_upto(g: &Grammar, m: nat)
    requires
        m <= g.num_sections(),
    ensures
        forall|i: int|
            #![trigger entries_upto(g, m)[i]]
            0 <= i < entries_upto(g, m).len() ==> nav_entry_ok(g, entries_upto(g, m)[i], m),
        forall|j: int|
            #![trigger pages_upto(g, m)[j]]
            0 <= j < pages_upto(g, m).len() ==> page_ok(g, pages_upto(g, m)[j], m),
        forall|si: int, ti: int|
            #![trigger topic_entry(g, si, ti)]
            0 <= si < m && g.has_topic(si, ti) ==> exists|i: int|
                0 <= i < entries_upto(g, m).len() && #[trigger] entries_upto(g, m)[i] == topic_entry(g, si, ti),
        forall|si: int, ti: int|
            #![trigger topic_page(g, si, ti)]
            0 <= si < m && g.has_topic(si, ti) ==> exists|j: int|
                0 <= j < pages_upto(g, m).len() && #[trigger] pages_upto(g, m)[j] == topic_page(g, si, ti),
        forall|si: int|
            #![trigger section_entry_title(g, si)]
            0 <= si < m ==> exists|i: int|
                0 <= i < entries_upto(g, m).len() && #[trigger] entries_upto(g, m)[i] == (
                    1nat,
                    section_entry_title(g, si),
                    None::<Seq<char>>,
                ),
    decreases m,
{
    if m == 0 {
        assert(entries_upto(g, m) =~= Seq::empty());
        assert(pages_upto(g, m) =~= Seq::empty());
    } else {
        let s = m - 1;
        let n = g.num_topics(s);
        lemma_nav_and_pages_upto(g, (m - 1) as nat);
        lemma_topic_entries_from_topics(g, s, n);
        let pe = entries_upto(g, (m - 1) as nat);
        let se = section_entries(g, s);
        let te = topic_entries(g, s, n);
        let pp = pages_upto(g, (m - 1) as nat);
        let sp = section_pages(g, s, n);
        let all_e = entries_upto(g, m);
        let all_p = pages_upto(g, m);
        assert(all_e == pe + se);
        assert(all_p == pp + sp);
        assert forall|i: int|
            #![trigger entries_upto(g, m)[i]]
            0 <= i < entries_upto(g, m).len() implies nav_entry_ok(g, entries_upto(g, m)[i], m) by {
            if i < pe.len() {
                assert(all_e[i] == pe[i]);
                assert(nav_entry_ok(g, pe[i], (m - 1) as nat));
                if pe[i].2 is Some {
                    let (a, b) = choose|a: int, b: int|
                        0 <= a < m - 1 && g.has_topic(a, b) && pe[i] == #[trigger] topic_entry(g, a, b);
                    assert(0 <= a < m && g.has_topic(a, b) && all_e[i] == topic_entry(g, a, b));
                }
            } else if i == pe.len() {
                assert(all_e[i] == se[0]);
            } else {
                let k = i - pe.len() - 1;
                assert(all_e[i] == se[k + 1]);
                assert(se[k + 1] == te[k]);
                assert(te[k] == topic_entry(g, s, k));
                assert(g.has_topic(s, k));
            }
        }
        assert forall|j: int|
            #![trigger pages_upto(g, m)[j]]
            0 <= j < pages_upto(g, m).len() implies page_ok(g, pages_upto(g, m)[j], m) by {
            if j < pp.len() {
                assert(all_p[j] == pp[j]);
                assert(page_ok(g, pp[j], (m - 1) as nat));
                let (a, b) = choose|a: int, b: int|
                    0 <= a < m - 1 && g.has_topic(a, b) && pp[j] == #[trigger] topic_page(g, a, b);
                assert(0 <= a < m && g.has_topic(a, b) && all_p[j] == topic_page(g, a, b));
            } else {
                let k = j - pp.len();
                assert(all_p[j] == sp[k]);
                assert(sp[k] == topic_page(g, s, k));
                assert(g.has_topic(s, k));
            }
        }
        assert forall|si: int, ti: int|
            #![trigger topic_entry(g, si, ti)]
            0 <= si < m && g.has_topic(si, ti) implies exists|i: int|
                0 <= i < entries_upto(g, m).len() && #[trigger] entries_upto(g, m)[i] == topic_entry(g, si, ti) by {
            if si < m - 1 {
                let i = choose|i: int| 0 <= i < pe.len() && #[trigger] pe[i] == topic_entry(g, si, ti);
                assert(all_e[i] == pe[i]);
            } else {
                let i = pe.len() + 1 + ti;
                assert(se[1 + ti] == te[ti]);
                assert(all_e[i] == se[1 + ti]);
            }
        }
        assert forall|si: int|
            #![trigger section_entry_title(g, si)]
            0 <= si < m implies exists|i: int|
                0 <= i < entries_upto(g, m).len() && #[trigger] entries_upto(g, m)[i] == (
                    1nat,
                    section_entry_title(g, si),
                    None::<Seq<char>>,
                ) by {
            if si < m - 1 {
                let i = choose|i: int|
                    0 <= i < pe.len() && #[trigger] pe[i] == (1nat, section_entry_title(g, si), None::<Seq<char>>);
                assert(all_e[i] == pe[i]);
            } else {
                assert(all_e[pe.len() as int] == se[0]);
            }
        }
        assert forall|si: int, ti: int|
            #![trigger topic_page(g, si, ti)]
            0 <= si < m && g.has_topic(si, ti) implies exists|j: int|
                0 <= j < pages_upto(g, m).len() && #[trigger] pages_upto(g, m)[j] == topic_page(g, si, ti) by {
            if si < m - 1 {
                let j = choose|j: int| 0 <= j < pp.len() && #[trigger] pp[j] == topic_page(g, si, ti);
                assert(all_p[j] == pp[j]);
            } else {
                let j = pp.len() + ti;
                assert(all_p[j] == sp[ti]);
            }
        }
    }
}

/// The navigation and the pages agree: every navigation entry that has a
/// file is the entry of a topic whose page is generated at that file, and
/// every generated page is the page of a topic whose navigation entry
/// points to it.
pub proof fn lemma_navigation_links_pages(g: &Grammar)
    ensures
        forall|i: int|
            #![trigger navigation_entries(g)[i]]
            0 <= i < navigation_entries(g).len() && navigation_entries(g)[i].2 is Some ==> exists|j: int|
                0 <= j < topic_pages(g).len() && #[trigger] topic_pages(g)[j].0 == navigation_entries(g)[i].2->0,
        forall|j: int|
            #![trigger topic_pages(g)[j]]
            0 <= j < topic_pages(g).len() ==> exists|i: int|
                0 <= i < navigation_entries(g).len() && #[trigger] navigation_entries(g)[i].2 == Some(topic_pages(g)[j].0),
{
    let m = g.num_sections();
    lemma_nav_and_pages_upto(g, m);
    let nav = navigation_entries(g);
    let pages = topic_pages(g);
    assert forall|i: int|
        #![trigger navigation_entries(g)[i]]
        0 <= i < navigation_entries(g).len() && navigation_entries(g)[i].2 is Some implies exists|j: int|
            0 <= j < topic_pages(g).len() && #[trigger] topic_pages(g)[j].0 == navigation_entries(g)[i].2->0 by {
        assert(nav_entry_ok(g, nav[i], m));
        let (si, ti) = choose|si: int, ti: int|
            0 <= si < m && g.has_topic(si, ti) && nav[i] == #[trigger] topic_entry(g, si, ti);
        let j = choose|j: int| 0 <= j < pages.len() && #[trigger] pages[j] == topic_page(g, si, ti);
        assert(pages[j].0 == nav[i].2->0);
    }
    assert forall|j: int|
        #![trigger topic_pages(g)[j]]
        0 <= j < topic_pages(g).len() implies exists|i: int|
            0 <= i < navigation_entries(g).len() && #[trigger] navigation_entries(g)[i].2 == Some(topic_pages(g)[j].0) by {
        assert(page_ok(g, pages[j], m));
        let (si, ti) = choose|si: int, ti: int|
            0 <= si < m && g.has_topic(si, ti) && pages[j] == #[trigger] topic_page(g, si, ti);
        let i = choose|i: int| 0 <= i < nav.len() && #[trigger] nav[i] == topic_entry(g, si, ti);
        assert(nav[i].2 == Some(pages[j].0));
    }
}


/// The slug of topic `(si, ti)` is `"{a}-{section}/{b}-{topic}"`, where
/// `a` and `b` write `si + 1` and `ti + 1` as `{:0>2}` does and the titles
/// are in their slug form.
pub proof fn lemma_topic_slug_shape(g: &Grammar, si: int, ti: int)
    requires
        0 <= si,
        0 <= ti,
    ensures
        exists|a: Seq<char>, b: Seq<char>|
            #[trigger] is_padded_numeral(a, si + 1) && #[trigger] is_padded_numeral(b, ti + 1)
                && topic_slug(g, si, ti) == a + seq!['-'] + slug_segment(g.section(si).title@) + seq![
                '/',
            ] + b + seq!['-'] + slug_segment(g.topic(si, ti).title@),
{
    lemma_zero_pad2_numeral((si + 1) as nat);
    lemma_zero_pad2_numeral((ti + 1) as nat);
    let a = zero_pad2(decimal((si + 1) as nat));
    let b = zero_pad2(decimal((ti + 1) as nat));
    assert(is_padded_numeral(a, si + 1) && is_padded_numeral(b, ti + 1));
}

/// `t` is a suffix of `s`.
pub open spec fn ends_with(s: Seq<char>, t: Seq<char>) -> bool {
    s.len() >= t.len() && s.subrange(s.len() - t.len(), s.len() as int) == t
}

/// The page `p` is the page of topic `(si, ti)`: its file is
/// `"{slug}/index.md"`, it opens with the heading `"# {title}"`, it lists the
/// productions of the first group of the topic's definition exactly when
/// the topic has one, and it ends by including the topic's notes, or the
/// placeholder snippet when the topic has none.
#[verifier::opaque]
pub open spec fn page_fits_topic(
    g: &Grammar,
    p: (Seq<char>, Seq<char>, Option<int>, Seq<char>),
    si: int,
    ti: int,
) -> bool {
    &&& g.has_topic(si, ti)
    &&& p.0 == topic_slug(g, si, ti) + "/index.md"@
    &&& p.1.len() > 2 + g.topic(si, ti).title@.len()
    &&& p.1.subrange(0, 2 + g.topic(si, ti).title@.len() as int) == "# "@ + g.topic(si, ti).title@
    &&& p.1[2 + g.topic(si, ti).title@.len() as int] == '\n'
    &&& (p.2 is Some <==> g.topic(si, ti).definition is Some)
    &&& (p.2 matches Some(k) ==> g.is_first_group(g.topic(si, ti).definition->0@, k))
    &&& match g.topic(si, ti).notes {
        Some(n) => ends_with(p.3, "--8<-- \""@ + n@ + "\"\n"@),
        None => ends_with(
            p.3,
            "--8<-- \"specification/notes/under-construction-snippet.md\"\n"@,
        ),
    }
}

proof fn lemma_ends_with_concat(a: Seq<char>, t: Seq<char>)
    ensures
        ends_with(a + t, t),
{
    assert((a + t).subrange(a.len() as int, (a + t).len() as int) =~= t);
}

proof fn lemma_topic_page_fits(g: &Grammar, si: int, ti: int)
    requires
        g.has_topic(si, ti),
        g.definitions_resolved(),
    ensures
        page_fits_topic(g, topic_page(g, si, ti), si, ti),
{
    reveal(page_fits_topic);
    let t = g.topic(si, ti);
    let p = topic_page(g, si, ti);
    let has = t.definition is Some;
    reveal_strlit("\n--8<-- \"");
    reveal_strlit("--8<-- \"");
    reveal_strlit("\n");
    reveal_strlit("# ");
    reveal_strlit(
        "\n\n<!-- markdownlint-disable no-inline-html -->\n<!-- markdownlint-disable no-space-in-emphasis -->\n<!-- cSpell:disable -->\n",
    );
    let head = "# "@ + t.title@;
    let rest = "\n\n<!-- markdownlint-disable no-inline-html -->\n<!-- markdownlint-disable no-space-in-emphasis -->\n<!-- cSpell:disable -->\n"@;
    assert(page_header(t.title@) == head + rest);
    assert(p.1.subrange(0, head.len() as int) =~= head) by {
        if has {
            assert(p.1 == head + rest
                + "\n<div class=\"admonition summary\">\n<p class=\"admonition-title\">Grammar</p>\n"@);
            assert(p.1 =~= head + (rest
                + "\n<div class=\"admonition summary\">\n<p class=\"admonition-title\">Grammar</p>\n"@));
        }
    }
    assert(p.1[head.len() as int] == '\n') by {
        if has {
            assert(p.1 =~= head + (rest
                + "\n<div class=\"admonition summary\">\n<p class=\"admonition-title\">Grammar</p>\n"@));
        }
    }
    if let Some(d) = t.definition {
        assert(g.defines(d@));
        crate::grammar::lemma_group_index(g, d@);
    }
    let x = if has {
        "\n</div>\n"@
    } else {
        Seq::empty()
    };
    let snippet = notes_snippet(topic_notes(g, si, ti));
    assert("\n--8<-- \""@ =~= "\n"@ + "--8<-- \""@);
    assert(p.3 =~= (x + "\n"@) + ("--8<-- \""@ + snippet + "\"\n"@));
    lemma_ends_with_concat(x + "\n"@, "--8<-- \""@ + snippet + "\"\n"@);
    match t.notes {
        Some(n) => {},
        None => {
            reveal_strlit("specification/notes/under-construction-snippet.md");
            reveal_strlit("\"\n");
            reveal_strlit("--8<-- \"specification/notes/under-construction-snippet.md\"\n");
            assert("--8<-- \""@ + snippet + "\"\n"@
                =~= "--8<-- \"specification/notes/under-construction-snippet.md\"\n"@);
        },
    }
}

/// Some topic's page is `p`.
pub open spec fn is_page_of_a_topic(g: &Grammar, p: (Seq<char>, Seq<char>, Option<int>, Seq<char>)) -> bool {
    exists|si: int, ti: int| #[trigger] page_fits_topic(g, p, si, ti)
}

/// Some page in `pages` is the page of topic `(si, ti)`.
pub open spec fn has_page_of(
    g: &Grammar,
    pages: Seq<(Seq<char>, Seq<char>, Option<int>, Seq<char>)>,
    si: int,
    ti: int,
) -> bool {
    exists|j: int| 0 <= j < pages.len() && #[trigger] page_fits_topic(g, pages[j], si, ti)
}

/// The generated pages are exactly the pages of the topics: each page is
/// that of some topic (its file, heading, grammar and included notes are
/// the topic's), and each topic has such a page.
pub proof fn lemma_pages_fit_topics(g: &Grammar)
    requires
        g.definitions_resolved(),
    ensures
        forall|j: int|
            0 <= j < topic_pages(g).len() ==> is_page_of_a_topic(g, #[trigger] topic_pages(g)[j]),
        forall|si: int, ti: int|
            g.has_topic(si, ti) ==> #[trigger] has_page_of(g, topic_pages(g), si, ti),
{
    assert forall|j: int| 0 <= j < topic_pages(g).len() implies is_page_of_a_topic(g, #[trigger] topic_pages(g)[j]) by {
        lemma_page_is_of_a_topic(g, j);
    }
    assert forall|si: int, ti: int|
        g.has_topic(si, ti) implies #[trigger] has_page_of(g, topic_pages(g), si, ti) by {
        lemma_topic_has_page(g, si, ti);
    }
}

proof fn lemma_page_is_of_a_topic(g: &Grammar, j: int)
    requires
        g.definitions_resolved(),
        0 <= j < topic_pages(g).len(),
    ensures
        is_page_of_a_topic(g, topic_pages(g)[j]),
{
    let m = g.num_sections();
    lemma_nav_and_pages_upto(g, m);
    let pages = topic_pages(g);
    assert(page_ok(g, pages[j], m));
    let (si, ti) = choose|si: int, ti: int|
        0 <= si < m && g.has_topic(si, ti) && pages[j] == #[trigger] topic_page(g, si, ti);
    lemma_topic_page_fits(g, si, ti);
    assert(page_fits_topic(g, pages[j], si, ti));
}

proof fn lemma_topic_has_page(g: &Grammar, si: int, ti: int)
    requires
        g.definitions_resolved(),
        g.has_topic(si, ti),
    ensures
        has_page_of(g, topic_pages(g), si, ti),
{
    let m = g.num_sections();
    lemma_nav_and_pages_upto(g, m);
    let pages = topic_pages(g);
    assert(topic_page(g, si, ti) == topic_page(g, si, ti));
    let j = choose|j: int| 0 <= j < pages.len() && #[trigger] pages[j] == topic_page(g, si, ti);
    lemma_topic_page_fits(g, si, ti);
    assert(page_fits_topic(g, pages[j], si, ti));
}

/// `e` is one of the navigation entries `nav`.
pub open spec fn has_nav_entry(
    nav: Seq<(nat, Seq<char>, Option<Seq<char>>)>,
    e: (nat, Seq<char>, Option<Seq<char>>),
) -> bool {
    exists|i: int| 0 <= i < nav.len() && #[trigger] nav[i] == e
}

/// The navigation has, for each section `si`, the entry at level 1 titled
/// `"{si+1}. {title}"` with no file, and for each topic `(si, ti)` the entry
/// at level 2 titled `"{si+1}.{ti+1}. {title}"` whose file is
/// `"{slug}/index.md"`; and every entry with a file is such a topic entry.
pub proof fn lemma_navigation_entries_of_manifest(g: &Grammar)
    ensures
        forall|si: int|
            0 <= si < g.num_sections() ==> #[trigger] has_nav_entry(
                navigation_entries(g),
                (1nat, decimal((si + 1) as nat) + ". "@ + g.section(si).title@, None),
            ),
        forall|si: int, ti: int|
            g.has_topic(si, ti) ==> #[trigger] has_nav_entry(
                navigation_entries(g),
                (
                    2nat,
                    decimal((si + 1) as nat) + "."@ + decimal((ti + 1) as nat) + ". "@ + g.topic(
                        si,
                        ti,
                    ).title@,
                    Some(topic_slug(g, si, ti) + "/index.md"@),
                ),
            ),
{
    let m = g.num_sections();
    lemma_nav_and_pages_upto(g, m);
    assert forall|si: int|
        0 <= si < g.num_sections() implies #[trigger] has_nav_entry(
            navigation_entries(g),
            (1nat, decimal((si + 1) as nat) + ". "@ + g.section(si).title@, None),
        ) by {
        assert(section_entry_title(g, si) == section_entry_title(g, si));
    }
    assert forall|si: int, ti: int|
        g.has_topic(si, ti) implies #[trigger] has_nav_entry(
            navigation_entries(g),
            (
                2nat,
                decimal((si + 1) as nat) + "."@ + decimal((ti + 1) as nat) + ". "@ + g.topic(
                    si,
                    ti,
                ).title@,
                Some(topic_slug(g, si, ti) + "/index.md"@),
            ),
        ) by {
        assert(topic_entry(g, si, ti) == topic_entry(g, si, ti));
    }
}

} // verus!
