//! The syntax lexer: the registry of CSS-wide keywords, units, types, properties
//! and at-rules that values are checked against.
use vstd::prelude::*;
use crate::utils::str_map::{entries_map, lemma_entries_map_domain, StrMap};

verus! {

/// The entries of a list of (key, value) pairs, keys read as text.
pub open spec fn text_entries<V>(v: Seq<(String, V)>) -> Seq<(Seq<char>, V)> {
    v.map_values(|e: (String, V)| (e.0@, e.1))
}

/// The text of each string.
pub open spec fn texts(v: Seq<String>) -> Seq<Seq<char>> {
    v.map_values(|s: String| s@)
}

/// The CSS-wide keywords a syntax lexer starts with.
pub open spec fn default_css_wide_keywords() -> Seq<Seq<char>> {
    seq!["inherit"@, "initial"@, "unset"@]
}

#[derive(Debug)]
pub struct Lexer {
    css_wide_keywords: Vec<String>,
    generic: bool,
    units: StrMap<Vec<String>>,
    atrules: StrMap<Atrule>,
    properties: StrMap<Property>,
    types: StrMap<Type>,
    structure: StrMap<Structure>,
}

#[derive(Debug)]
pub struct Atrule {
    pub name: String,
    pub prelude: Option<SyntaxDescriptor>,
    pub descriptors: Option<StrMap<SyntaxDescriptor>>,
}

#[derive(Debug)]
pub struct Property {
    pub name: String,
    pub syntax: Option<SyntaxDescriptor>,
}

#[derive(Debug)]
pub struct Type {
    pub name: String,
    pub syntax: Option<SyntaxDescriptor>,
}

#[derive(Debug)]
pub struct SyntaxDescriptor {
    pub syntax: Option<String>,
    pub match_graph: Option<String>,
}

#[derive(Debug)]
pub struct Structure {}

#[derive(Debug)]
pub struct Config {
    pub css_wide_keywords: Option<Vec<String>>,
    pub units: Option<StrMap<Vec<String>>>,
    pub types: Option<StrMap<SyntaxDescriptor>>,
    pub generic: bool,
    pub atrules: Option<StrMap<Atrule>>,
    pub properties: Option<StrMap<Property>>,
}

#[derive(Debug)]
pub struct ValidationResult {
    pub errors: Vec<String>,
    pub types: Vec<String>,
    pub properties: Vec<String>,
}

#[derive(Debug)]
pub struct DumpResult {
    pub generic: bool,
    pub css_wide_keywords: Vec<String>,
    pub units: StrMap<Vec<String>>,
    pub types: StrMap<String>,
    pub properties: StrMap<String>,
    pub atrules: StrMap<String>,
}

/// The names whose flag is set, in order.
pub open spec fn set_names(es: Seq<(Seq<char>, bool)>) -> Seq<Seq<char>>
    decreases es.len(),
{
    if es.len() == 0 {
        Seq::empty()
    } else if es.last().1 {
        set_names(es.drop_last()).push(es.last().0)
    } else {
        set_names(es.drop_last())
    }
}

/// With no flag set, no name is listed.
pub proof fn lemma_no_set_names(es: Seq<(Seq<char>, bool)>)
    requires
        forall|j: int| 0 <= j < es.len() ==> !(#[trigger] es[j]).1,
    ensures
        set_names(es) == Seq::<Seq<char>>::empty(),
    decreases es.len(),
{
    if es.len() > 0 {
        let d = es.drop_last();
        assert forall|j: int| 0 <= j < d.len() implies !(#[trigger] d[j]).1 by {
            assert(d[j] == es[j]);
        }
        lemma_no_set_names(d);
        assert(!es[es.len() - 1].1);
    }
}

/// Unit lists by name, as text.
pub open spec fn unit_texts(m: Map<Seq<char>, Vec<String>>) -> Map<Seq<char>, Seq<Seq<char>>> {
    m.map_values(|v: Vec<String>| texts(v@))
}

/// Types by name, each as (name, syntax).
pub open spec fn type_view(m: Map<Seq<char>, Type>) -> Map<Seq<char>, (Seq<char>, Option<SyntaxDescriptor>)> {
    m.map_values(|t: Type| (t.name@, t.syntax))
}

/// The types that a table of syntaxes by name makes: each named after its key.
pub open spec fn types_of(m: Map<Seq<char>, SyntaxDescriptor>) -> Map<Seq<char>, (Seq<char>, Option<SyntaxDescriptor>)> {
    m.map_entries(|k: Seq<char>, d: SyntaxDescriptor| (k, Some(d)))
}

/// A map of the same names whose every value is `value`.
pub open spec fn names_to<V>(m: Map<Seq<char>, V>, d: Map<Seq<char>, String>, value: Seq<char>) -> bool {
    &&& d.dom() == m.dom()
    &&& forall|k: Seq<char>| #[trigger] d.dom().contains(k) ==> d[k]@ == value
}

impl Lexer {
    pub closed spec fn keywords(&self) -> Seq<Seq<char>> {
        texts(self.css_wide_keywords@)
    }

    pub closed spec fn is_generic(&self) -> bool {
        self.generic
    }

    pub closed spec fn unit_map(&self) -> Map<Seq<char>, Seq<Seq<char>>> {
        unit_texts(self.units.view())
    }

    pub closed spec fn atrule_map(&self) -> Map<Seq<char>, Atrule> {
        self.atrules.view()
    }

    pub closed spec fn property_map(&self) -> Map<Seq<char>, Property> {
        self.properties.view()
    }

    pub closed spec fn type_map(&self) -> Map<Seq<char>, (Seq<char>, Option<SyntaxDescriptor>)> {
        type_view(self.types.view())
    }

    /// Registers an at-rule under `name`.
    pub fn add_atrule(&mut self, name: String, atrule: Atrule)
        ensures
            final(self).atrule_map() == old(self).atrule_map().insert(name@, atrule),
            final(self).keywords() == old(self).keywords(),
            final(self).is_generic() == old(self).is_generic(),
            final(self).unit_map() == old(self).unit_map(),
            final(self).property_map() == old(self).property_map(),
            final(self).type_map() == old(self).type_map(),
    {
        self.atrules.insert(name, atrule);
    }

    /// Registers a property under `name`.
    pub fn add_property(&mut self, name: String, property: Property)
        ensures
            final(self).property_map() == old(self).property_map().insert(name@, property),
            final(self).keywords() == old(self).keywords(),
            final(self).is_generic() == old(self).is_generic(),
            final(self).unit_map() == old(self).unit_map(),
            final(self).atrule_map() == old(self).atrule_map(),
            final(self).type_map() == old(self).type_map(),
    {
        self.properties.insert(name, property);
    }

    /// Registers a type named `name` with the given syntax.
    pub fn add_type(&mut self, name: String, syntax: SyntaxDescriptor)
        ensures
            final(self).type_map() == old(self).type_map().insert(name@, (name@, Some(syntax))),
            final(self).keywords() == old(self).keywords(),
            final(self).is_generic() == old(self).is_generic(),
            final(self).unit_map() == old(self).unit_map(),
            final(self).atrule_map() == old(self).atrule_map(),
            final(self).property_map() == old(self).property_map(),
    {
        let name_copy = name.clone();
        let ghost before = self.types.view();
        self.types.insert(name, Type { name: name_copy, syntax: Some(syntax) });
        assert(type_view(self.types.view()) =~= type_view(before).insert(name@, (name@, Some(syntax))));
    }

    /// A lexer with the default CSS-wide keywords (`inherit`, `initial`, `unset`),
    /// or with what `config` gives: its keywords and units in place of the defaults,
    /// its types, at-rules and properties registered, and its `generic` flag.
    pub fn new(config: Option<Config>) -> (r: Self)
        ensures
            config is None ==> {
                &&& r.keywords() == default_css_wide_keywords()
                &&& !r.is_generic()
                &&& r.unit_map() == Map::<Seq<char>, Seq<Seq<char>>>::empty()
                &&& r.type_map() == Map::<Seq<char>, (Seq<char>, Option<SyntaxDescriptor>)>::empty()
                &&& r.atrule_map() == Map::<Seq<char>, Atrule>::empty()
                &&& r.property_map() == Map::<Seq<char>, Property>::empty()
            },
            config matches Some(c) ==> {
                &&& r.keywords() == (match c.css_wide_keywords {
                    Some(v) => texts(v@),
                    None => default_css_wide_keywords(),
                })
                &&& r.is_generic() == c.generic
                &&& r.unit_map() == (match c.units {
                    Some(u) => unit_texts(u.view()),
                    None => Map::<Seq<char>, Seq<Seq<char>>>::empty(),
                })
                &&& r.type_map() == (match c.types {
                    Some(t) => types_of(t.view()),
                    None => Map::<Seq<char>, (Seq<char>, Option<SyntaxDescriptor>)>::empty(),
                })
                &&& r.atrule_map() == (match c.atrules {
                    Some(a) => a.view(),
                    None => Map::<Seq<char>, Atrule>::empty(),
                })
                &&& r.property_map() == (match c.properties {
                    Some(p) => p.view(),
                    None => Map::<Seq<char>, Property>::empty(),
                })
            },
    {
        let mut lexer = Lexer {
            css_wide_keywords: vec!["inherit".to_owned(), "initial".to_owned(), "unset".to_owned()],
            generic: false,
            units: StrMap::new(),
            atrules: StrMap::new(),
            properties: StrMap::new(),
            types: StrMap::new(),
            structure: StrMap::new(),
        };
        assert(lexer.keywords() =~= default_css_wide_keywords());
        assert(lexer.unit_map() =~= Map::<Seq<char>, Seq<Seq<char>>>::empty());
        assert(lexer.type_map() =~= Map::<Seq<char>, (Seq<char>, Option<SyntaxDescriptor>)>::empty());
        if let Some(config) = config {
            let Config { css_wide_keywords, units, types, generic, atrules, properties } = config;
            if let Some(css_wide_keywords) = css_wide_keywords {
                lexer.css_wide_keywords = css_wide_keywords;
            }
            if let Some(units) = units {
                lexer.units = units;
            }
            if let Some(types) = types {
                let ghost es = types.entries();
                let mut entries = types.into_entries();
                let ghost mut done: int = 0;
                assert(es.take(0) =~= Seq::<(Seq<char>, SyntaxDescriptor)>::empty());
                assert(types_of(entries_map(es.take(0))) =~= Map::<Seq<char>, (Seq<char>, Option<SyntaxDescriptor>)>::empty());
                while entries.len() > 0
                    invariant
                        0 <= done <= es.len(),
                        entries@.len() + done == es.len(),
                        text_entries(entries@) == es.skip(done),
                        lexer.type_map() == types_of(entries_map(es.take(done))),
                        lexer.keywords() == (match css_wide_keywords {
                            Some(v) => texts(v@),
                            None => default_css_wide_keywords(),
                        }),
                        !lexer.is_generic(),
                        lexer.unit_map() == (match units {
                            Some(u) => unit_texts(u.view()),
                            None => Map::<Seq<char>, Seq<Seq<char>>>::empty(),
                        }),
                        lexer.atrule_map() == Map::<Seq<char>, Atrule>::empty(),
                        lexer.property_map() == Map::<Seq<char>, Property>::empty(),
                    decreases entries.len(),
                {
                    let ghost first = text_entries(entries@)[0];
                    let ghost prev_entries = entries@;
                    assert(first == es.skip(done)[0]);
                    let (name, syntax) = entries.remove(0);
                    assert(first == es[done]);
                    lexer.add_type(name, syntax);
                    proof {
                        assert(es.take(done + 1).drop_last() =~= es.take(done));
                        assert(es.take(done + 1).last() == es[done]);
                        assert(types_of(entries_map(es.take(done + 1))) =~= types_of(entries_map(es.take(done))).insert(
                            name@, (name@, Some(syntax))));
                        assert(entries@ =~= prev_entries.subrange(1, prev_entries.len() as int));
                        assert(text_entries(entries@) =~= es.skip(done + 1)) by {
                            assert forall|i: int| 0 <= i < entries@.len() implies #[trigger] text_entries(entries@)[i]
                                == es.skip(done + 1)[i] by {
                                assert(text_entries(prev_entries)[i + 1] == es.skip(done)[i + 1]);
                            }
                        }
                        done = done + 1;
                    }
                }
                assert(es.take(done) =~= es);
            }
            if generic {
                lexer.generic = true;
            }
            if let Some(atrules) = atrules {
                let ghost es = atrules.entries();
                let mut entries = atrules.into_entries();
                let ghost mut done: int = 0;
                assert(es.take(0) =~= Seq::<(Seq<char>, Atrule)>::empty());
                while entries.len() > 0
                    invariant
                        0 <= done <= es.len(),
                        entries@.len() + done == es.len(),
                        text_entries(entries@) == es.skip(done),
                        lexer.atrule_map() == entries_map(es.take(done)),
                        lexer.keywords() == (match css_wide_keywords {
                            Some(v) => texts(v@),
                            None => default_css_wide_keywords(),
                        }),
                        lexer.is_generic() == generic,
                        lexer.unit_map() == (match units {
                            Some(u) => unit_texts(u.view()),
                            None => Map::<Seq<char>, Seq<Seq<char>>>::empty(),
                        }),
                        lexer.type_map() == (match types {
                            Some(t) => types_of(t.view()),
                            None => Map::<Seq<char>, (Seq<char>, Option<SyntaxDescriptor>)>::empty(),
                        }),
                        lexer.property_map() == Map::<Seq<char>, Property>::empty(),
                    decreases entries.len(),
                {
                    let ghost first = text_entries(entries@)[0];
                    let ghost prev_entries = entries@;
                    assert(first == es.skip(done)[0]);
                    let (name, atrule) = entries.remove(0);
                    assert(first == es[done]);
                    lexer.add_atrule(name, atrule);
                    proof {
                        assert(es.take(done + 1).drop_last() =~= es.take(done));
                        assert(entries@ =~= prev_entries.subrange(1, prev_entries.len() as int));
                        assert(text_entries(entries@) =~= es.skip(done + 1)) by {
                            assert forall|i: int| 0 <= i < entries@.len() implies #[trigger] text_entries(entries@)[i]
                                == es.skip(done + 1)[i] by {
                                assert(text_entries(prev_entries)[i + 1] == es.skip(done)[i + 1]);
                            }
                        }
                        done = done + 1;
                    }
                }
                assert(es.take(done) =~= es);
            }
            if let Some(properties) = properties {
                let ghost es = properties.entries();
                let mut entries = properties.into_entries();
                let ghost mut done: int = 0;
                assert(es.take(0) =~= Seq::<(Seq<char>, Property)>::empty());
                while entries.len() > 0
                    invariant
                        0 <= done <= es.len(),
                        entries@.len() + done == es.len(),
                        text_entries(entries@) == es.skip(done),
                        lexer.property_map() == entries_map(es.take(done)),
                        lexer.keywords() == (match css_wide_keywords {
                            Some(v) => texts(v@),
                            None => default_css_wide_keywords(),
                        }),
                        lexer.is_generic() == generic,
                        lexer.unit_map() == (match units {
                            Some(u) => unit_texts(u.view()),
                            None => Map::<Seq<char>, Seq<Seq<char>>>::empty(),
                        }),
                        lexer.type_map() == (match types {
                            Some(t) => types_of(t.view()),
                            None => Map::<Seq<char>, (Seq<char>, Option<SyntaxDescriptor>)>::empty(),
                        }),
                        lexer.atrule_map() == (match atrules {
                            Some(a) => a.view(),
                            None => Map::<Seq<char>, Atrule>::empty(),
                        }),
                    decreases entries.len(),
                {
                    let ghost first = text_entries(entries@)[0];
                    let ghost prev_entries = entries@;
                    assert(first == es.skip(done)[0]);
                    let (name, property) = entries.remove(0);
                    assert(first == es[done]);
                    lexer.add_property(name, property);
                    proof {
                        assert(es.take(done + 1).drop_last() =~= es.take(done));
                        assert(entries@ =~= prev_entries.subrange(1, prev_entries.len() as int));
                        assert(text_entries(entries@) =~= es.skip(done + 1)) by {
                            assert forall|i: int| 0 <= i < entries@.len() implies #[trigger] text_entries(entries@)[i]
                                == es.skip(done + 1)[i] by {
                                assert(text_entries(prev_entries)[i + 1] == es.skip(done)[i + 1]);
                            }
                        }
                        done = done + 1;
                    }
                }
                assert(es.take(done) =~= es);
            }
        }
        lexer
    }

    /// Marks `name` as seen (not broken) unless it was seen before.
    fn validate_syntax(
        &self,
        name: &str,
        broken_map: &mut StrMap<bool>,
        syntax: Option<&SyntaxDescriptor>,
        errors: &mut Vec<String>,
    )
        requires
            forall|j: int| 0 <= j < old(broken_map).entries().len() ==> !(#[trigger] old(broken_map).entries()[j]).1,
        ensures
            final(broken_map).view() == (if old(broken_map).view().dom().contains(name@) {
                old(broken_map).view()
            } else {
                old(broken_map).view().insert(name@, false)
            }),
            forall|j: int| 0 <= j < final(broken_map).entries().len() ==> !(#[trigger] final(broken_map).entries()[j]).1,
            final(errors)@ == old(errors)@,
    {
        if broken_map.contains_key(name) {
            return;
        }
        broken_map.insert(name.to_owned(), false);
    }

    /// The names in a map of broken flags whose flag is set, in order.
    fn broken_names(map: &StrMap<bool>) -> (r: Vec<String>)
        ensures
            texts(r@) == set_names(map.entries()),
    {
        let mut names: Vec<String> = Vec::new();
        let mut i: usize = 0;
        while i < map.len()
            invariant
                i <= map.entries().len(),
                texts(names@) == set_names(map.entries().take(i as int)),
            decreases map.entries().len() - i,
        {
            let (name, broken) = map.entry(i);
            let ghost before = names@;
            proof {
                let es = map.entries();
                assert(es.take(i + 1).drop_last() =~= es.take(i as int));
                assert(es.take(i + 1).last() == es[i as int]);
            }
            if *broken {
                names.push(name.clone());
                assert(texts(names@) =~= texts(before).push(name@));
            }
            i += 1;
        }
        assert(map.entries().take(map.entries().len() as int) =~= map.entries());
        names
    }

    /// Checks the syntaxes of the registered types and properties.  No syntax is
    /// ever marked broken, so there is never a result to report.
    pub fn validate(&self) -> (r: Option<ValidationResult>)
        ensures
            r is None,
    {
        let mut errors: Vec<String> = Vec::new();
        let mut broken_types: StrMap<bool> = StrMap::new();
        let mut broken_properties: StrMap<bool> = StrMap::new();
        let mut i: usize = 0;
        while i < self.types.len()
            invariant
                forall|j: int| 0 <= j < broken_types.entries().len() ==> !(#[trigger] broken_types.entries()[j]).1,
            decreases self.types.entries().len() - i,
        {
            let (key, ty) = self.types.entry(i);
            self.validate_syntax(key.as_str(), &mut broken_types, ty.syntax.as_ref(), &mut errors);
            i += 1;
        }
        let mut i: usize = 0;
        while i < self.properties.len()
            invariant
                forall|j: int| 0 <= j < broken_properties.entries().len() ==> !(#[trigger] broken_properties.entries()[j]).1,
            decreases self.properties.entries().len() - i,
        {
            let (key, property) = self.properties.entry(i);
            self.validate_syntax(key.as_str(), &mut broken_properties, property.syntax.as_ref(), &mut errors);
            i += 1;
        }
        let broken_types_array = Self::broken_names(&broken_types);
        let broken_properties_array = Self::broken_names(&broken_properties);
        proof {
            lemma_no_set_names(broken_types.entries());
            lemma_no_set_names(broken_properties.entries());
            assert(texts(broken_types_array@).len() == broken_types_array@.len());
            assert(texts(broken_properties_array@).len() == broken_properties_array@.len());
        }
        if broken_types_array.len() != 0 || broken_properties_array.len() != 0 {
            Some(ValidationResult { errors, types: broken_types_array, properties: broken_properties_array })
        } else {
            None
        }
    }

    /// The names of a map, each mapped to `syntax`.
    fn dump_map_syntax<T>(&self, map: &StrMap<T>, syntax_as_ast: bool, pretty: bool) -> (r: StrMap<String>)
        ensures
            names_to(map.view(), r.view(), "syntax"@),
    {
        let mut result: StrMap<String> = StrMap::new();
        let mut i: usize = 0;
        while i < map.len()
            invariant
                i <= map.entries().len(),
                result.view().dom() == Set::new(|k: Seq<char>| exists|j: int| 0 <= j < i && (#[trigger] map.entries()[j]).0 == k),
                forall|k: Seq<char>| #[trigger] result.view().dom().contains(k) ==> result.view()[k]@ == "syntax"@,
            decreases map.entries().len() - i,
        {
            let (name, _value) = map.entry(i);
            let ghost before = result.view();
            result.insert(name.clone(), "syntax".to_owned());
            assert(result.view().dom() =~= Set::new(|k: Seq<char>| exists|j: int| 0 <= j < i + 1 && (#[trigger] map.entries()[j]).0 == k)) by {
                assert forall|k: Seq<char>| result.view().dom().contains(k) implies exists|j: int| 0 <= j < i + 1 && (#[trigger] map.entries()[j]).0 == k by {
                    if k != name@ {
                        assert(before.dom().contains(k));
                    } else {
                        assert(map.entries()[i as int].0 == k);
                    }
                }
                assert forall|k: Seq<char>| (exists|j: int| 0 <= j < i + 1 && (#[trigger] map.entries()[j]).0 == k) implies result.view().dom().contains(k) by {
                    let j = choose|j: int| 0 <= j < i + 1 && (#[trigger] map.entries()[j]).0 == k;
                    if j < i {
                        assert(before.dom().contains(k));
                    }
                }
            }
            i += 1;
        }
        proof {
            assert(map.view().dom() =~= result.view().dom()) by {
                assert forall|k: Seq<char>| map.view().dom().contains(k) <==> result.view().dom().contains(k) by {
                    lemma_entries_map_domain(map.entries(), k);
                }
            }
        }
        result
    }

    /// The names of a map of at-rules, each mapped to `atrule`.
    fn dump_atrule_map_syntax(&self, map: &StrMap<Atrule>, syntax_as_ast: bool, pretty: bool) -> (r: StrMap<String>)
        ensures
            names_to(map.view(), r.view(), "atrule"@),
    {
        let mut result: StrMap<String> = StrMap::new();
        let mut i: usize = 0;
        while i < map.len()
            invariant
                i <= map.entries().len(),
                result.view().dom() == Set::new(|k: Seq<char>| exists|j: int| 0 <= j < i && (#[trigger] map.entries()[j]).0 == k),
                forall|k: Seq<char>| #[trigger] result.view().dom().contains(k) ==> result.view()[k]@ == "atrule"@,
            decreases map.entries().len() - i,
        {
            let (name, _atrule) = map.entry(i);
            let ghost before = result.view();
            result.insert(name.clone(), "atrule".to_owned());
            assert(result.view().dom() =~= Set::new(|k: Seq<char>| exists|j: int| 0 <= j < i + 1 && (#[trigger] map.entries()[j]).0 == k)) by {
                assert forall|k: Seq<char>| result.view().dom().contains(k) implies exists|j: int| 0 <= j < i + 1 && (#[trigger] map.entries()[j]).0 == k by {
                    if k != name@ {
                        assert(before.dom().contains(k));
                    } else {
                        assert(map.entries()[i as int].0 == k);
                    }
                }
                assert forall|k: Seq<char>| (exists|j: int| 0 <= j < i + 1 && (#[trigger] map.entries()[j]).0 == k) implies result.view().dom().contains(k) by {
                    let j = choose|j: int| 0 <= j < i + 1 && (#[trigger] map.entries()[j]).0 == k;
                    if j < i {
                        assert(before.dom().contains(k));
                    }
                }
            }
            i += 1;
        }
        proof {
            assert(map.view().dom() =~= result.view().dom()) by {
                assert forall|k: Seq<char>| map.view().dom().contains(k) <==> result.view().dom().contains(k) by {
                    lemma_entries_map_domain(map.entries(), k);
                }
            }
        }
        result
    }

    /// A copy of the unit lists.
    fn copy_units(&self) -> (r: StrMap<Vec<String>>)
        ensures
            unit_texts(r.view()) == self.unit_map(),
    {
        let ghost es = self.units.entries();
        let mut result: StrMap<Vec<String>> = StrMap::new();
        let mut i: usize = 0;
        assert(unit_texts(result.view()) =~= unit_texts(entries_map(es.take(0))));
        while i < self.units.len()
            invariant
                es == self.units.entries(),
                i <= es.len(),
                unit_texts(result.view()) == unit_texts(entries_map(es.take(i as int))),
            decreases es.len() - i,
        {
            let (name, units) = self.units.entry(i);
            let copy = units.clone();
            assert(copy@ =~= units@) by {
                assert forall|j: int| 0 <= j < units@.len() implies copy@[j] == units@[j] by {
                    assert(cloned::<String>(units[j], copy[j]));
                }
            }
            let ghost before = result.view();
            result.insert(name.clone(), copy);
            proof {
                assert(es.take(i + 1).drop_last() =~= es.take(i as int));
                assert(es.take(i + 1).last() == es[i as int]);
                assert(entries_map(es.take(i + 1)) == entries_map(es.take(i as int)).insert(es[i as int].0, es[i as int].1));
                assert(unit_texts(result.view()) =~= unit_texts(before).insert(name@, texts(copy@)));
                assert(unit_texts(entries_map(es.take(i + 1))) =~= unit_texts(entries_map(es.take(i as int))).insert(
                    es[i as int].0, texts(es[i as int].1@)));
                assert(unit_texts(result.view()) =~= unit_texts(entries_map(es.take(i + 1))));
            }
            i += 1;
        }
        assert(es.take(es.len() as int) =~= es);
        result
    }

    /// A copy of the CSS-wide keywords.
    fn copy_keywords(&self) -> (r: Vec<String>)
        ensures
            texts(r@) == self.keywords(),
    {
        let copy = self.css_wide_keywords.clone();
        assert(copy@ =~= self.css_wide_keywords@) by {
            assert forall|j: int| 0 <= j < copy@.len() implies copy@[j] == self.css_wide_keywords@[j] by {
                assert(cloned::<String>(self.css_wide_keywords[j], copy[j]));
            }
        }
        copy
    }

    /// The registry as plain data: the flag, the keywords and units, and the names of
    /// the types and properties (each mapped to `syntax`) and of the at-rules (each
    /// mapped to `atrule`).
    pub fn dump(&self, syntax_as_ast: bool, pretty: bool) -> (r: DumpResult)
        ensures
            r.generic == self.is_generic(),
            texts(r.css_wide_keywords@) == self.keywords(),
            unit_texts(r.units.view()) == self.unit_map(),
            names_to(self.type_map(), r.types.view(), "syntax"@),
            names_to(self.property_map(), r.properties.view(), "syntax"@),
            names_to(self.atrule_map(), r.atrules.view(), "atrule"@),
    {
        let r = DumpResult {
            generic: self.generic,
            css_wide_keywords: self.copy_keywords(),
            units: self.copy_units(),
            types: self.dump_map_syntax(&self.types, syntax_as_ast, pretty),
            properties: self.dump_map_syntax(&self.properties, syntax_as_ast, pretty),
            atrules: self.dump_atrule_map_syntax(&self.atrules, syntax_as_ast, pretty),
        };
        assert(self.type_map().dom() =~= self.types.view().dom());
        r
    }
}

} // verus!
