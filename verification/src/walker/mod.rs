//! The syntax-tree walker's tables: for each node type, the fields to visit, in
//! natural and in reverse order.
use vstd::prelude::*;
use crate::utils::str_map::{
    entries_map, lemma_entries_map_take, lemma_map_values_insert, lemma_unique_entries, unique_keys, StrMap,
};

verus! {

/// Whether a field holds a node or a list of nodes.
#[derive(Clone, Copy, Debug, PartialEq, Eq, Structural)]
pub enum FieldType {
    Node,
    List,
}

/// A field of a node type.
pub struct FieldConfig {
    pub name: String,
    pub field_type: FieldType,
    pub nullable: bool,
}

/// The walking configuration of a node type.
pub struct TypeConfig {
    pub context: Option<String>,
    pub fields: Vec<FieldConfig>,
}

/// A named marker that a walk callback can hand back.
pub struct Symbol(pub String);

pub struct Walker {
    types: StrMap<TypeConfig>,
    iterators_natural: StrMap<TypeIterator>,
    iterators_reverse: StrMap<TypeIterator>,
    break_walk: Symbol,
    skip_node: Symbol,
}

/// The node types, by name.
pub struct Config {
    pub node: StrMap<NodeType>,
}

/// A node type: its fields by name, each with the kinds of value it may hold.
pub struct NodeType {
    pub structure: Option<StrMap<Vec<FieldType>>>,
}

pub struct WalkOptions {
    pub reverse: bool,
    pub visit: Option<String>,
}

pub struct Node {
    pub node_type: String,
}

pub struct Item;

pub struct List;

/// The fields to visit for a node type, in order.
pub struct TypeIterator {
    pub fields: Vec<FieldConfig>,
}

/// A field as (name, type, nullable).
pub open spec fn field_view(f: FieldConfig) -> (Seq<char>, FieldType, bool) {
    (f.name@, f.field_type, f.nullable)
}

pub open spec fn fields_view(v: Seq<FieldConfig>) -> Seq<(Seq<char>, FieldType, bool)> {
    v.map_values(|f: FieldConfig| field_view(f))
}

/// The last kind listed for a field, or a node when none is.
pub open spec fn last_type(ts: Seq<FieldType>) -> FieldType {
    if ts.len() > 0 {
        ts.last()
    } else {
        FieldType::Node
    }
}

/// The fields that a structure makes: one per entry, in order, of the last kind
/// listed for it, never nullable.
pub open spec fn structure_fields(es: Seq<(Seq<char>, Vec<FieldType>)>) -> Seq<(Seq<char>, FieldType, bool)> {
    es.map_values(|e: (Seq<char>, Vec<FieldType>)| (e.0, last_type(e.1@), false))
}

/// Every node type has a structure.
pub open spec fn all_structured(m: Map<Seq<char>, NodeType>) -> bool {
    forall|k: Seq<char>| #[trigger] m.dom().contains(k) ==> m[k].structure is Some
}

/// The fields of every node type of a configuration.
pub open spec fn config_fields(m: Map<Seq<char>, NodeType>) -> Map<Seq<char>, Seq<(Seq<char>, FieldType, bool)>> {
    m.map_values(|t: NodeType| structure_fields(t.structure->0.entries()))
}

fn copy_field(f: &FieldConfig) -> (r: FieldConfig)
    ensures
        field_view(r) == field_view(*f),
{
    FieldConfig { name: f.name.clone(), field_type: f.field_type, nullable: f.nullable }
}

impl Walker {
    /// The fields of each node type.
    pub closed spec fn type_fields(&self) -> Map<Seq<char>, Seq<(Seq<char>, FieldType, bool)>> {
        self.types.view().map_values(|t: TypeConfig| fields_view(t.fields@))
    }

    /// The fields of each node type in visiting order.
    pub closed spec fn natural_fields(&self) -> Map<Seq<char>, Seq<(Seq<char>, FieldType, bool)>> {
        self.iterators_natural.view().map_values(|t: TypeIterator| fields_view(t.fields@))
    }

    /// The fields of each node type in reverse visiting order.
    pub closed spec fn reverse_fields(&self) -> Map<Seq<char>, Seq<(Seq<char>, FieldType, bool)>> {
        self.iterators_reverse.view().map_values(|t: TypeIterator| fields_view(t.fields@))
    }

    /// The names of the two markers.
    pub closed spec fn symbols(&self) -> (Seq<char>, Seq<char>) {
        (self.break_walk.0@, self.skip_node.0@)
    }

    /// The walking configuration of a structure: one field per entry.
    fn get_walkers_from_structure(name: &str, structure: &StrMap<Vec<FieldType>>) -> (r: TypeConfig)
        ensures
            r.context is None,
            fields_view(r.fields@) == structure_fields(structure.entries()),
    {
        let mut fields: Vec<FieldConfig> = Vec::new();
        let mut i: usize = 0;
        while i < structure.len()
            invariant
                i <= structure.entries().len(),
                fields_view(fields@) == structure_fields(structure.entries().take(i as int)),
            decreases structure.entries().len() - i,
        {
            let (key, field_types) = structure.entry(i);
            let mut field_config = FieldConfig { name: key.clone(), field_type: FieldType::Node, nullable: false };
            let mut j: usize = 0;
            while j < field_types.len()
                invariant
                    j <= field_types@.len(),
                    field_config.name@ == key@,
                    !field_config.nullable,
                    field_config.field_type == (if j > 0 { field_types@[j - 1] } else { FieldType::Node }),
                decreases field_types.len() - j,
            {
                field_config.field_type = field_types[j];
                j += 1;
            }
            let ghost before = fields@;
            fields.push(field_config);
            proof {
                assert(fields_view(fields@) =~= fields_view(before).push(field_view(field_config)));
                assert(structure.entries().take(i + 1) =~= structure.entries().take(i as int).push(structure.entries()[i as int]));
                assert(structure_fields(structure.entries().take(i + 1)) =~= structure_fields(structure.entries().take(i as int)).push(
                    (key@, last_type(field_types@), false)));
            }
            i += 1;
        }
        assert(structure.entries().take(structure.entries().len() as int) =~= structure.entries());
        TypeConfig { context: None, fields }
    }

    /// The walking configuration of every node type.
    fn get_types_from_config(config: &Config) -> (r: StrMap<TypeConfig>)
        requires
            all_structured(config.node.view()),
        ensures
            r.view().map_values(|t: TypeConfig| fields_view(t.fields@)) == config_fields(config.node.view()),
    {
        let ghost es = config.node.entries();
        let mut types: StrMap<TypeConfig> = StrMap::new();
        let mut i: usize = 0;
        let n = config.node.len();
        proof {
            lemma_unique_entries(es);
        }
        assert(types.view().map_values(|t: TypeConfig| fields_view(t.fields@)) =~= entries_map(es.take(0)).map_values(
            |t: NodeType| structure_fields(t.structure->0.entries())));
        while i < n
            invariant
                n == es.len(),
                es == config.node.entries(),
                unique_keys(es),
                all_structured(config.node.view()),
                forall|j: int| 0 <= j < es.len() ==> #[trigger] config.node.view().dom().contains(es[j].0)
                    && config.node.view()[es[j].0] == es[j].1,
                i <= n,
                types.view().map_values(|t: TypeConfig| fields_view(t.fields@)) == entries_map(es.take(i as int)).map_values(
                    |t: NodeType| structure_fields(t.structure->0.entries())),
            decreases n - i,
        {
            let (name, node_type) = config.node.entry(i);
            assert(config.node.view().dom().contains(es[i as int].0));
            match &node_type.structure {
                Some(structure) => {
                    let type_config = Self::get_walkers_from_structure(name.as_str(), structure);
                    let ghost before = types.view();
                    types.insert(name.clone(), type_config);
                    proof {
                        let f = |t: TypeConfig| fields_view(t.fields@);
                        let g = |t: NodeType| structure_fields(t.structure->0.entries());
                        lemma_entries_map_take(es, i as int);
                        lemma_map_values_insert(before, name@, type_config, f);
                        lemma_map_values_insert(entries_map(es.take(i as int)), es[i as int].0, es[i as int].1, g);
                        assert(f(type_config) == g(es[i as int].1));
                    }
                },
                None => {
                    assert(false);
                },
            }
            i += 1;
        }
        proof {
            assert(es.take(n as int) =~= es);
        }
        types
    }

    /// The fields of a type configuration, reversed when `reverse`.
    fn create_type_iterator(type_config: &TypeConfig, reverse: bool) -> (r: TypeIterator)
        ensures
            fields_view(r.fields@) == (if reverse {
                fields_view(type_config.fields@).reverse()
            } else {
                fields_view(type_config.fields@)
            }),
    {
        let mut fields: Vec<FieldConfig> = Vec::new();
        let n = type_config.fields.len();
        let mut i: usize = 0;
        while i < n
            invariant
                n == type_config.fields@.len(),
                i <= n,
                fields_view(fields@) == (if reverse {
                    fields_view(type_config.fields@).reverse().take(i as int)
                } else {
                    fields_view(type_config.fields@).take(i as int)
                }),
            decreases n - i,
        {
            let k = if reverse { n - 1 - i } else { i };
            let f = copy_field(&type_config.fields[k]);
            let ghost before = fields@;
            fields.push(f);
            proof {
                let src = fields_view(type_config.fields@);
                assert(fields_view(fields@) =~= fields_view(before).push(field_view(f)));
                if reverse {
                    assert(src.reverse().take(i + 1) =~= src.reverse().take(i as int).push(src[k as int]));
                } else {
                    assert(src.take(i + 1) =~= src.take(i as int).push(src[k as int]));
                }
            }
            i += 1;
        }
        proof {
            let src = fields_view(type_config.fields@);
            assert(src.take(n as int) =~= src);
            assert(src.reverse().take(n as int) =~= src.reverse());
        }
        TypeIterator { fields }
    }

    /// The tables for a configuration in which every node type has a structure.
    pub fn new(config: Config) -> (r: Self)
        requires
            all_structured(config.node.view()),
        ensures
            r.type_fields() == config_fields(config.node.view()),
            r.natural_fields() == config_fields(config.node.view()),
            r.reverse_fields() == config_fields(config.node.view()).map_values(
                |f: Seq<(Seq<char>, FieldType, bool)>| f.reverse(),
            ),
            r.symbols() == ("break-walk"@, "skip-node"@),
    {
        let types = Self::get_types_from_config(&config);
        let mut iterators_natural: StrMap<TypeIterator> = StrMap::new();
        let mut iterators_reverse: StrMap<TypeIterator> = StrMap::new();
        let break_walk = Symbol("break-walk".to_owned());
        let skip_node = Symbol("skip-node".to_owned());
        let ghost es = types.entries();
        let n = types.len();
        proof {
            lemma_unique_entries(es);
        }
        let mut i: usize = 0;
        assert(iterators_natural.view().map_values(|t: TypeIterator| fields_view(t.fields@)) =~= entries_map(
            es.take(0),
        ).map_values(|t: TypeConfig| fields_view(t.fields@)));
        assert(iterators_reverse.view().map_values(|t: TypeIterator| fields_view(t.fields@)) =~= entries_map(
            es.take(0),
        ).map_values(|t: TypeConfig| fields_view(t.fields@).reverse()));
        while i < n
            invariant
                n == es.len(),
                es == types.entries(),
                i <= n,
                iterators_natural.view().map_values(|t: TypeIterator| fields_view(t.fields@)) == entries_map(
                    es.take(i as int),
                ).map_values(|t: TypeConfig| fields_view(t.fields@)),
                iterators_reverse.view().map_values(|t: TypeIterator| fields_view(t.fields@)) == entries_map(
                    es.take(i as int),
                ).map_values(|t: TypeConfig| fields_view(t.fields@).reverse()),
            decreases n - i,
        {
            let (name, type_config) = types.entry(i);
            let natural = Self::create_type_iterator(type_config, false);
            let reversed = Self::create_type_iterator(type_config, true);
            let ghost before_natural = iterators_natural.view();
            let ghost before_reverse = iterators_reverse.view();
            iterators_natural.insert(name.clone(), natural);
            iterators_reverse.insert(name.clone(), reversed);
            proof {
                let fi = |t: TypeIterator| fields_view(t.fields@);
                let fc = |t: TypeConfig| fields_view(t.fields@);
                let rc = |t: TypeConfig| fields_view(t.fields@).reverse();
                lemma_entries_map_take(es, i as int);
                lemma_map_values_insert(before_natural, name@, natural, fi);
                lemma_map_values_insert(before_reverse, name@, reversed, fi);
                lemma_map_values_insert(entries_map(es.take(i as int)), es[i as int].0, es[i as int].1, fc);
                lemma_map_values_insert(entries_map(es.take(i as int)), es[i as int].0, es[i as int].1, rc);
            }
            i += 1;
        }
        let r = Walker { types, iterators_natural, iterators_reverse, break_walk, skip_node };
        proof {
            assert(es.take(n as int) =~= es);
            assert(r.type_fields() =~= config_fields(config.node.view()));
            assert(r.reverse_fields() =~= config_fields(config.node.view()).map_values(
                |f: Seq<(Seq<char>, FieldType, bool)>| f.reverse(),
            ));
        }
        r
    }

    /// Walks the tree from `root`.  A `visit` option must name a node type that has
    /// fields to walk in the chosen order.
    pub fn walk<F>(&self, root: &Node, options: Option<WalkOptions>, callback: F)
        where
            F: Fn(&Node, Option<&Item>, Option<&List>) -> Option<Symbol>,
        requires
            options matches Some(o) && o.visit matches Some(v) ==> (if o.reverse {
                self.reverse_fields()
            } else {
                self.natural_fields()
            }).dom().contains(v@),
    {
        let mut reverse_order = false;
        if let Some(options) = options {
            if options.reverse {
                reverse_order = true;
            }
            if let Some(visit) = options.visit {
                let iterators = if reverse_order {
                    &self.iterators_reverse
                } else {
                    &self.iterators_natural
                };
                let found = iterators.contains_key(visit.as_str());
                assert(found);
            }
        }
    }
}

} // verus!
