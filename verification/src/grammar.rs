//! The part of the language grammar that the specification pages are
//! generated from: the manifest's sections and topics, and the productions
//! of each definition.
use vstd::prelude::*;

verus! {

/// One production of the grammar; the pages refer to it by its name.
pub struct Production {
    pub name: String,
}

/// The productions that a definition names, in their order.
pub struct ProductionGroup {
    pub definition: String,
    pub productions: Vec<Production>,
}

/// A topic of the specification: one page.
pub struct Topic {
    pub title: String,
    /// The definition whose productions the page lists, if any.
    pub definition: Option<String>,
    /// The snippet that is included at the end of the page, if any.
    pub notes: Option<String>,
}

/// A section of the specification: a titled list of topics.
pub struct Section {
    pub title: String,
    pub topics: Vec<Topic>,
}

/// The manifest: the specification's sections, in order.
pub struct Manifest {
    pub sections: Vec<Section>,
}

/// The grammar: its manifest, and the productions of each definition
/// (a definition is looked up by name; the first group with that name
/// is the one that counts).
pub struct Grammar {
    pub manifest: Manifest,
    pub productions: Vec<ProductionGroup>,
}

impl Grammar {
    /// Number of sections.
    pub open spec fn num_sections(&self) -> nat {
        self.manifest.sections@.len()
    }

    /// The section at index `si`.
    pub open spec fn section(&self, si: int) -> Section {
        self.manifest.sections@[si]
    }

    /// Number of topics of section `si`.
    pub open spec fn num_topics(&self, si: int) -> nat {
        self.section(si).topics@.len()
    }

    /// The topic at index `ti` of section `si`.
    pub open spec fn topic(&self, si: int, ti: int) -> Topic {
        self.section(si).topics@[ti]
    }

    /// `(si, ti)` names a topic of the manifest.
    pub open spec fn has_topic(&self, si: int, ti: int) -> bool {
        0 <= si < self.num_sections() && 0 <= ti < self.num_topics(si)
    }

    /// `k` is the first production group whose definition is `d`.
    pub open spec fn is_first_group(&self, d: Seq<char>, k: int) -> bool {
        &&& 0 <= k < self.productions@.len()
        &&& self.productions@[k].definition@ == d
        &&& forall|j: int| 0 <= j < k ==> self.productions@[j].definition@ != d
    }

    /// Some production group has the definition `d`.
    pub open spec fn defines(&self, d: Seq<char>) -> bool {
        exists|k: int| 0 <= k < self.productions@.len() && self.productions@[k].definition@ == d
    }

    /// The index of the first production group with the definition `d`
    /// (meaningful where `defines(d)`).
    pub open spec fn group_index(&self, d: Seq<char>) -> int {
        choose|k: int| self.is_first_group(d, k)
    }

    /// Every topic's definition names a production group.
    pub open spec fn definitions_resolved(&self) -> bool {
        forall|si: int, ti: int|
            #![trigger self.topic(si, ti)]
            self.has_topic(si, ti) && self.topic(si, ti).definition is Some ==> self.defines(
                self.topic(si, ti).definition->0@,
            )
    }
}

proof fn lemma_first_group_unique(g: &Grammar, d: Seq<char>, k1: int, k2: int)
    requires
        g.is_first_group(d, k1),
        g.is_first_group(d, k2),
    ensures
        k1 == k2,
{
}

/// A group with definition `d` exists, so the first one does, and
/// `group_index` names it.
pub proof fn lemma_group_index(g: &Grammar, d: Seq<char>)
    requires
        g.defines(d),
    ensures
        g.is_first_group(d, g.group_index(d)),
{
    let k0 = choose|k: int| 0 <= k < g.productions@.len() && g.productions@[k].definition@ == d;
    lemma_first_exists(g, d, k0);
}

proof fn lemma_first_exists(g: &Grammar, d: Seq<char>, k: int)
    requires
        0 <= k < g.productions@.len(),
        g.productions@[k].definition@ == d,
    ensures
        exists|f: int| g.is_first_group(d, f),
    decreases k,
{
    if exists|j: int| 0 <= j < k && g.productions@[j].definition@ == d {
        let j = choose|j: int| 0 <= j < k && g.productions@[j].definition@ == d;
        lemma_first_exists(g, d, j);
    } else {
        assert(g.is_first_group(d, k));
    }
}

/// Finds the first production group whose definition is `definition`.
pub(crate) fn find_group(grammar: &Grammar, definition: &String) -> (k: usize)
    requires
        grammar.defines(definition@),
    ensures
        k == grammar.group_index(definition@),
        grammar.is_first_group(definition@, k as int),
{
    proof {
        lemma_group_index(grammar, definition@);
    }
    let mut k: usize = 0;
    while k < grammar.productions.len()
        invariant
            grammar.defines(definition@),
            grammar.is_first_group(definition@, grammar.group_index(definition@)),
            k <= grammar.productions@.len(),
            forall|j: int| 0 <= j < k ==> grammar.productions@[j].definition@ != definition@,
        decreases grammar.productions.len() - k,
    {
        if grammar.productions[k].definition == *definition {
            proof {
                lemma_first_group_unique(grammar, definition@, k as int, grammar.group_index(definition@));
            }
            return k;
        }
        k = k + 1;
    }
    proof {
        let f = grammar.group_index(definition@);
        assert(grammar.productions@[f].definition@ == definition@);
    }
    0
}

} // verus!
