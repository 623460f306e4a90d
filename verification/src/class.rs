//! The object model: classes and instances.
//!
//! A class is immutable once declared: a name, the evaluated property
//! initializers that seed each new instance, a method table, and at most
//! one superclass. Classes and instances live in arenas owned by the
//! interpreter and are denoted by their index; an instance's index is what
//! makes it shared, mutable state.

use crate::assoc::{assoc_view, distinct_keys, lemma_assoc_view_dom, lemma_assoc_view_index,
    lemma_assoc_view_push, lemma_assoc_view_update};
use crate::runtime_value::{Value, ValueV};
use vstd::prelude::*;
use vstd::string::StringExecFns;

verus! {

/// The mathematical content of a class.
#[verifier::ext_equal]
pub ghost struct ClassV {
    pub name: Seq<char>,
    pub properties: Map<Seq<char>, ValueV>,
    pub methods: Map<Seq<char>, usize>,
    pub superclass: Option<int>,
}

/// A class declaration's runtime value. Method entries index the
/// interpreter's function arena; the superclass, when present, indexes
/// the class arena and always names an older entry.
pub struct Class {
    name: String,
    properties: Vec<(String, Value)>,
    methods: Vec<(String, usize)>,
    superclass: Option<usize>,
}

impl View for Class {
    type V = ClassV;

    closed spec fn view(&self) -> ClassV {
        ClassV {
            name: self.name@,
            properties: assoc_view(self.properties@),
            methods: assoc_view(self.methods@),
            superclass: match self.superclass {
                Some(j) => Some(j as int),
                None => None,
            },
        }
    }
}

/// The method a name resolves to on the class at index `ci`, following
/// the superclass chain outward; `None` when no class in the chain has
/// it. Chains always point at older entries, so the walk ends.
pub open spec fn spec_find_method(classes: Seq<ClassV>, ci: int, name: Seq<char>) -> Option<usize>
    decreases ci,
{
    if 0 <= ci < classes.len() {
        if classes[ci].methods.contains_key(name) {
            Some(classes[ci].methods[name])
        } else {
            match classes[ci].superclass {
                Some(j) => if 0 <= j < ci {
                    spec_find_method(classes, j, name)
                } else {
                    None
                },
                None => None,
            }
        }
    } else {
        None
    }
}

impl Class {
    /// Both tables keep one entry per name.
    pub closed spec fn wf(&self) -> bool {
        distinct_keys(self.properties@) && distinct_keys(self.methods@)
    }

    /// A class with no properties or methods yet; the evaluator fills the
    /// tables while it walks the declaration's members.
    pub fn new(name: &String, superclass: Option<usize>) -> (c: Class)
        ensures
            c.wf(),
            c@.name == name@,
            c@.properties == Map::<Seq<char>, ValueV>::empty(),
            c@.methods == Map::<Seq<char>, usize>::empty(),
            c@.superclass == match superclass {
                Some(j) => Some(j as int),
                None => None,
            },
    {
        Class { name: name.clone(), properties: Vec::new(), methods: Vec::new(), superclass }
    }

    /// The class's name, which is also how a class value renders.
    pub fn to_string(&self) -> (s: String)
        ensures
            s@ == self@.name,
    {
        self.name.clone()
    }

    /// The superclass entry, if any.
    pub fn get_super(&self) -> (r: Option<usize>)
        ensures
            match r {
                Some(j) => self@.superclass == Some(j as int),
                None => self@.superclass is None,
            },
    {
        self.superclass
    }

    /// Records an evaluated property initializer, overwriting an earlier
    /// entry of the same name.
    pub fn set_property(&mut self, name: &String, value: &Value)
        requires
            old(self).wf(),
        ensures
            final(self).wf(),
            final(self)@ == (ClassV {
                properties: old(self)@.properties.insert(name@, value@),
                ..old(self)@
            }),
    {
        let ghost s0 = self.properties@;
        match find_key_value(&self.properties, name) {
            Some(i) => {
                let pair = (name.clone(), value.clone());
                let ghost p = pair;
                self.properties[i] = pair;
                proof {
                    lemma_assoc_view_update(s0, i as int, p);
                    assert(self@ =~~= (ClassV {
                        properties: old(self)@.properties.insert(name@, value@),
                        ..old(self)@
                    }));
                }
            },
            None => {
                let pair = (name.clone(), value.clone());
                let ghost p = pair;
                self.properties.push(pair);
                proof {
                    lemma_assoc_view_dom(s0, name@);
                    lemma_assoc_view_push(s0, p);
                    assert(self@ =~~= (ClassV {
                        properties: old(self)@.properties.insert(name@, value@),
                        ..old(self)@
                    }));
                }
            },
        }
    }

    /// Records a method, overwriting an earlier entry of the same name.
    pub fn add_method(&mut self, name: &String, fun: usize)
        requires
            old(self).wf(),
        ensures
            final(self).wf(),
            final(self)@ == (ClassV {
                methods: old(self)@.methods.insert(name@, fun),
                ..old(self)@
            }),
    {
        let ghost s0 = self.methods@;
        match find_key_usize(&self.methods, name) {
            Some(i) => {
                let pair = (name.clone(), fun);
                let ghost p = pair;
                self.methods[i] = pair;
                proof {
                    lemma_assoc_view_update(s0, i as int, p);
                    assert(self@ =~~= (ClassV {
                        methods: old(self)@.methods.insert(name@, fun),
                        ..old(self)@
                    }));
                }
            },
            None => {
                let pair = (name.clone(), fun);
                let ghost p = pair;
                self.methods.push(pair);
                proof {
                    lemma_assoc_view_dom(s0, name@);
                    lemma_assoc_view_push(s0, p);
                    assert(self@ =~~= (ClassV {
                        methods: old(self)@.methods.insert(name@, fun),
                        ..old(self)@
                    }));
                }
            },
        }
    }

    /// The method entry of this class's own table for a name.
    pub fn own_method(&self, name: &String) -> (r: Option<usize>)
        requires
            self.wf(),
        ensures
            match r {
                Some(f) => self@.methods.contains_key(name@) && self@.methods[name@] == f,
                None => !self@.methods.contains_key(name@),
            },
    {
        match find_key_usize(&self.methods, name) {
            Some(i) => Some(self.methods[i].1),
            None => None,
        }
    }

    /// The evaluated property initializer this class records for a name.
    pub fn own_property(&self, name: &String) -> (r: Option<Value>)
        requires
            self.wf(),
        ensures
            match r {
                Some(v) => self@.properties.contains_key(name@) && v@ == self@.properties[name@],
                None => !self@.properties.contains_key(name@),
            },
    {
        match find_key_value(&self.properties, name) {
            Some(i) => Some(self.properties[i].1.clone()),
            None => None,
        }
    }

    /// A copy of the property table, used to seed a fresh instance.
    pub fn properties_copy(&self) -> (r: Vec<(String, Value)>)
        requires
            self.wf(),
        ensures
            distinct_keys(r@),
            assoc_view(r@) == self@.properties,
    {
        let mut out: Vec<(String, Value)> = Vec::new();
        let n = self.properties.len();
        for i in 0..n
            invariant
                n == self.properties@.len(),
                self.wf(),
                out@.len() == i,
                forall|j: int| 0 <= j < i ==> (#[trigger] out@[j]).0@ == self.properties@[j].0@
                    && out@[j].1@ == self.properties@[j].1@,
            decreases n - i,
        {
            out.push((self.properties[i].0.clone(), self.properties[i].1.clone()));
        }
        proof {
            lemma_assoc_view_congruent(out@, self.properties@);
        }
        out
    }

    /// Walks this class then its superclass chain for a method. `ci` must
    /// be this class's own arena index, so the chain only visits older
    /// entries.
    pub fn find_method(&self, ci: usize, classes: &Vec<Class>, name: &String) -> (r: Option<usize>)
        requires
            ci < classes@.len(),
            classes@[ci as int] == *self,
            forall|i: int|
                0 <= i < classes@.len() ==> (#[trigger] classes@[i]).wf() && match classes@[i]@.superclass {
                    Some(j) => 0 <= j < i,
                    None => true,
                },
        ensures
            r == spec_find_method(classes@.map_values(|c: Class| c@), ci as int, name@),
        decreases ci,
    {
        match self.own_method(name) {
            Some(f) => Some(f),
            None => {
                match self.superclass {
                    Some(j) => classes[j].find_method(j, classes, name),
                    None => None,
                }
            },
        }
    }
}

/// Two entry lists equal pairwise at view level denote the same map and
/// are distinct together.
proof fn lemma_assoc_view_congruent(a: Seq<(String, Value)>, b: Seq<(String, Value)>)
    requires
        a.len() == b.len(),
        forall|j: int| 0 <= j < a.len() ==> (#[trigger] a[j]).0@ == b[j].0@ && a[j].1@ == b[j].1@,
        distinct_keys(b),
    ensures
        distinct_keys(a),
        assoc_view(a) == assoc_view(b),
    decreases a.len(),
{
    if a.len() > 0 {
        assert forall|j: int| 0 <= j < a.len() - 1 implies (#[trigger] a.drop_last()[j]).0@
            == b.drop_last()[j].0@ && a.drop_last()[j].1@ == b.drop_last()[j].1@ by {
            assert(a[j].0@ == b[j].0@ && a[j].1@ == b[j].1@);
        }
        lemma_assoc_view_congruent(a.drop_last(), b.drop_last());
        assert(assoc_view(a) =~= assoc_view(b));
    } else {
        assert(assoc_view(a) =~= assoc_view(b));
    }
}

/// The position of a name's entry in a name-to-value list with distinct
/// keys.
fn find_key_value(entries: &Vec<(String, Value)>, name: &String) -> (r: Option<usize>)
    requires
        distinct_keys(entries@),
    ensures
        match r {
            Some(i) => i < entries@.len() && entries@[i as int].0@ == name@ && assoc_view(
                entries@,
            ).contains_key(name@) && assoc_view(entries@)[name@] == entries@[i as int].1@,
            None => !assoc_view(entries@).contains_key(name@),
        },
{
    let n = entries.len();
    for i in 0..n
        invariant
            n == entries@.len(),
            distinct_keys(entries@),
            forall|j: int| 0 <= j < i ==> entries@[j].0@ != name@,
        decreases n - i,
    {
        if entries[i].0 == *name {
            proof {
                lemma_assoc_view_index(entries@, i as int);
            }
            return Some(i);
        }
    }
    proof {
        lemma_assoc_view_dom(entries@, name@);
    }
    None
}

/// The position of a name's entry in a name-to-index list with distinct
/// keys.
fn find_key_usize(entries: &Vec<(String, usize)>, name: &String) -> (r: Option<usize>)
    requires
        distinct_keys(entries@),
    ensures
        match r {
            Some(i) => i < entries@.len() && entries@[i as int].0@ == name@ && assoc_view(
                entries@,
            ).contains_key(name@) && assoc_view(entries@)[name@] == entries@[i as int].1,
            None => !assoc_view(entries@).contains_key(name@),
        },
{
    let n = entries.len();
    for i in 0..n
        invariant
            n == entries@.len(),
            distinct_keys(entries@),
            forall|j: int| 0 <= j < i ==> entries@[j].0@ != name@,
        decreases n - i,
    {
        if entries[i].0 == *name {
            proof {
                lemma_assoc_view_index(entries@, i as int);
            }
            return Some(i);
        }
    }
    proof {
        lemma_assoc_view_dom(entries@, name@);
    }
    None
}

/// The mathematical content of an instance.
#[verifier::ext_equal]
pub ghost struct InstanceV {
    pub class: int,
    pub properties: Map<Seq<char>, ValueV>,
}

/// An instance: a reference to its class and a private copy of property
/// values, seeded from the class's tables at construction time. Mutating
/// an instance never affects its class or sibling instances.
pub struct Instance {
    class: usize,
    properties: Vec<(String, Value)>,
}

impl View for Instance {
    type V = InstanceV;

    closed spec fn view(&self) -> InstanceV {
        InstanceV { class: self.class as int, properties: assoc_view(self.properties@) }
    }
}

impl Instance {
    pub closed spec fn wf(&self) -> bool {
        distinct_keys(self.properties@)
    }

    /// A fresh instance of the class at `class`, seeded with the given
    /// property copies.
    pub fn new(class: usize, properties: Vec<(String, Value)>) -> (inst: Instance)
        requires
            distinct_keys(properties@),
        ensures
            inst.wf(),
            inst@.class == class as int,
            inst@.properties == assoc_view(properties@),
    {
        Instance { class, properties }
    }

    /// The index of this instance's class.
    pub fn class_id(&self) -> (c: usize)
        ensures
            c as int == self@.class,
    {
        self.class
    }

    /// The instance's own value for a property, not consulting methods.
    pub fn get_property(&self, name: &String) -> (r: Option<Value>)
        requires
            self.wf(),
        ensures
            match r {
                Some(v) => self@.properties.contains_key(name@) && v@ == self@.properties[name@],
                None => !self@.properties.contains_key(name@),
            },
    {
        match find_key_value(&self.properties, name) {
            Some(i) => Some(self.properties[i].1.clone()),
            None => None,
        }
    }

    /// Writes a property on this instance alone, creating it if absent.
    pub fn set(&mut self, name: &String, value: &Value)
        requires
            old(self).wf(),
        ensures
            final(self).wf(),
            final(self)@ == (InstanceV {
                properties: old(self)@.properties.insert(name@, value@),
                ..old(self)@
            }),
    {
        let ghost s0 = self.properties@;
        match find_key_value(&self.properties, name) {
            Some(i) => {
                let pair = (name.clone(), value.clone());
                let ghost p = pair;
                self.properties[i] = pair;
                proof {
                    lemma_assoc_view_update(s0, i as int, p);
                    assert(self@ =~~= (InstanceV {
                        properties: old(self)@.properties.insert(name@, value@),
                        ..old(self)@
                    }));
                }
            },
            None => {
                let pair = (name.clone(), value.clone());
                let ghost p = pair;
                self.properties.push(pair);
                proof {
                    lemma_assoc_view_dom(s0, name@);
                    lemma_assoc_view_push(s0, p);
                    assert(self@ =~~= (InstanceV {
                        properties: old(self)@.properties.insert(name@, value@),
                        ..old(self)@
                    }));
                }
            },
        }
    }

    /// How an instance renders, given its class.
    pub fn to_string(&self, class: &Class) -> (s: String)
        ensures
            s@ == class@.name + " instance"@,
    {
        let mut s = class.to_string();
        s.append(" instance");
        s
    }
}

} // verus!
