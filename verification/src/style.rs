//! Per-element style storage and the cascade merge.
//!
//! Each element carries two layers: *authored* declarations (from its
//! markup) and *default* declarations (from its tag). The merge used
//! by the cascade combines a child's layers with its parent's already
//! merged style, letting only the inheritable properties propagate.

use vstd::prelude::*;
use crate::primitive_value::{PrimitiveValue, PrimitiveValueModel};
use crate::string_map::StringMap;

verus! {

use vstd::string::StringExecFns;

/// The fixed set of properties a child inherits from its parent.
pub open spec fn spec_inheritable(name: Seq<char>) -> bool {
    ||| name == "border-collapse"@
    ||| name == "border-spacing"@
    ||| name == "caption-side"@
    ||| name == "color"@
    ||| name == "cursor"@
    ||| name == "direction"@
    ||| name == "empty-cells"@
    ||| name == "font"@
    ||| name == "font-family"@
    ||| name == "font-size"@
    ||| name == "font-style"@
    ||| name == "font-variant"@
    ||| name == "font-weight"@
    ||| name == "letter-spacing"@
    ||| name == "line-height"@
    ||| name == "list-style"@
    ||| name == "list-style-image"@
    ||| name == "list-style-position"@
    ||| name == "list-style-type"@
    ||| name == "orphans"@
    ||| name == "quotes"@
    ||| name == "text-align"@
    ||| name == "text-ident"@
    ||| name == "text-transform"@
    ||| name == "visibility"@
    ||| name == "white-space"@
    ||| name == "widows"@
    ||| name == "word-spacing"@
}

/// Whether a property propagates from parent to child in the cascade.
pub fn can_be_inherited(name: &String) -> (r: bool)
    ensures
        r == spec_inheritable(name@),
{
    ||| *name == String::from_str("border-collapse")
    ||| *name == String::from_str("border-spacing")
    ||| *name == String::from_str("caption-side")
    ||| *name == String::from_str("color")
    ||| *name == String::from_str("cursor")
    ||| *name == String::from_str("direction")
    ||| *name == String::from_str("empty-cells")
    ||| *name == String::from_str("font")
    ||| *name == String::from_str("font-family")
    ||| *name == String::from_str("font-size")
    ||| *name == String::from_str("font-style")
    ||| *name == String::from_str("font-variant")
    ||| *name == String::from_str("font-weight")
    ||| *name == String::from_str("letter-spacing")
    ||| *name == String::from_str("line-height")
    ||| *name == String::from_str("list-style")
    ||| *name == String::from_str("list-style-image")
    ||| *name == String::from_str("list-style-position")
    ||| *name == String::from_str("list-style-type")
    ||| *name == String::from_str("orphans")
    ||| *name == String::from_str("quotes")
    ||| *name == String::from_str("text-align")
    ||| *name == String::from_str("text-ident")
    ||| *name == String::from_str("text-transform")
    ||| *name == String::from_str("visibility")
    ||| *name == String::from_str("white-space")
    ||| *name == String::from_str("widows")
    ||| *name == String::from_str("word-spacing")
}

/// The two style layers of one element.
#[derive(Debug)]
pub struct ElementStyleProperties {
    properties: StringMap<PrimitiveValue>,
    default_properties: StringMap<PrimitiveValue>,
}

/// The model of a style store: its two layers as maps.
#[verifier::ext_equal]
pub struct StyleModel {
    pub auth: Map<Seq<char>, PrimitiveValueModel>,
    pub dflt: Map<Seq<char>, PrimitiveValueModel>,
}

/// The merged style of a child under its parent's (already merged)
/// style, highest precedence first: the child's authored properties,
/// the parent's inheritable authored properties, the parent's
/// inheritable default properties, the child's default properties.
pub open spec fn spec_merged(child: StyleModel, parent: StyleModel) -> Map<
    Seq<char>,
    PrimitiveValueModel,
> {
    Map::new(
        |k: Seq<char>|
            child.auth.contains_key(k) || (spec_inheritable(k) && (parent.auth.contains_key(k)
                || parent.dflt.contains_key(k))) || child.dflt.contains_key(k),
        |k: Seq<char>|
            if child.auth.contains_key(k) {
                child.auth[k]
            } else if spec_inheritable(k) && parent.auth.contains_key(k) {
                parent.auth[k]
            } else if spec_inheritable(k) && parent.dflt.contains_key(k) {
                parent.dflt[k]
            } else {
                child.dflt[k]
            },
    )
}

/// The lookup a style store answers: the authored layer wins over the
/// default layer.
pub open spec fn spec_style_get(style: StyleModel, name: Seq<char>) -> Option<
    PrimitiveValueModel,
> {
    if style.auth.contains_key(name) {
        Some(style.auth[name])
    } else if style.dflt.contains_key(name) {
        Some(style.dflt[name])
    } else {
        None
    }
}

/// Whether some key of `keys` before position `i` reads as `k`.
pub open spec fn key_among(keys: Seq<String>, i: int, k: Seq<char>) -> bool {
    exists|j: int| 0 <= j < i && keys[j]@ == k
}

impl View for ElementStyleProperties {
    type V = StyleModel;

    closed spec fn view(&self) -> StyleModel {
        StyleModel { auth: self.properties@, dflt: self.default_properties@ }
    }
}

impl ElementStyleProperties {
    /// Both layers keep their keys unique.
    pub closed spec fn wf(&self) -> bool {
        self.properties.wf() && self.default_properties.wf()
    }

    /// An empty style store.
    pub fn new() -> (s: ElementStyleProperties)
        ensures
            s.wf(),
            s@.auth == Map::<Seq<char>, PrimitiveValueModel>::empty(),
            s@.dflt == Map::<Seq<char>, PrimitiveValueModel>::empty(),
    {
        ElementStyleProperties {
            properties: StringMap::new(),
            default_properties: StringMap::new(),
        }
    }

    /// Sets an authored property.
    pub fn set(&mut self, name: &str, value: PrimitiveValue)
        requires
            old(self).wf(),
        ensures
            final(self).wf(),
            final(self)@.auth == old(self)@.auth.insert(name@, value@),
            final(self)@.dflt == old(self)@.dflt,
    {
        self.properties.set(String::from_str(name), value);
    }

    /// Sets a default (tag-intrinsic) property.
    pub fn set_default(&mut self, name: &str, value: PrimitiveValue)
        requires
            old(self).wf(),
        ensures
            final(self).wf(),
            final(self)@.auth == old(self)@.auth,
            final(self)@.dflt == old(self)@.dflt.insert(name@, value@),
    {
        self.default_properties.set(String::from_str(name), value);
    }

    /// Looks a property up, the authored layer first; see
    /// [`spec_style_get`].
    pub fn get(&self, name: &str) -> (r: Option<&PrimitiveValue>)
        requires
            self.wf(),
        ensures
            (r is Some) == (spec_style_get(self@, name@) is Some),
            r matches Some(v) ==> spec_style_get(self@, name@) matches Some(m) && v@ == m,
    {
        let owned = String::from_str(name);
        if self.properties.contains(&owned) {
            return self.properties.get(&owned);
        }
        self.default_properties.get(&owned)
    }

    /// Looks a property up in the default layer only.
    pub fn get_default(&self, name: &str) -> (r: Option<&PrimitiveValue>)
        requires
            self.wf(),
        ensures
            (r is Some) == self@.dflt.contains_key(name@),
            r matches Some(v) ==> v@ == self@.dflt[name@],
    {
        let owned = String::from_str(name);
        self.default_properties.get(&owned)
    }

    /// Whether the authored layer holds the property.
    pub fn has(&self, name: &str) -> (r: bool)
        requires
            self.wf(),
        ensures
            r == self@.auth.contains_key(name@),
    {
        let owned = String::from_str(name);
        self.properties.contains(&owned)
    }

    /// Whether the default layer holds the property.
    pub fn has_default(&self, name: &str) -> (r: bool)
        requires
            self.wf(),
        ensures
            r == self@.dflt.contains_key(name@),
    {
        let owned = String::from_str(name);
        self.default_properties.contains(&owned)
    }

    /// The authored layer as name and value pairs, each name once.
    pub fn get_entries(&self) -> (r: Vec<(String, PrimitiveValue)>)
        requires
            self.wf(),
        ensures
            forall|i: int, j: int| 0 <= i < j < r@.len() ==> r@[i].0@ != r@[j].0@,
            forall|i: int|
                0 <= i < r@.len() ==> self@.auth.contains_key(#[trigger] r@[i].0@)
                    && r@[i].1@ == self@.auth[r@[i].0@],
            forall|k: Seq<char>|
                self@.auth.contains_key(k) ==> exists|i: int| 0 <= i < r@.len() && r@[i].0@ == k,
    {
        map_entries(&self.properties)
    }

    /// The default layer as name and value pairs, each name once.
    pub fn get_default_entries(&self) -> (r: Vec<(String, PrimitiveValue)>)
        requires
            self.wf(),
        ensures
            forall|i: int, j: int| 0 <= i < j < r@.len() ==> r@[i].0@ != r@[j].0@,
            forall|i: int|
                0 <= i < r@.len() ==> self@.dflt.contains_key(#[trigger] r@[i].0@)
                    && r@[i].1@ == self@.dflt[r@[i].0@],
            forall|k: Seq<char>|
                self@.dflt.contains_key(k) ==> exists|i: int| 0 <= i < r@.len() && r@[i].0@ == k,
    {
        map_entries(&self.default_properties)
    }

    /// An exact copy of both layers.
    pub fn duplicate(&self) -> (r: ElementStyleProperties)
        requires
            self.wf(),
        ensures
            r.wf(),
            r@.auth == self@.auth,
            r@.dflt == self@.dflt,
    {
        ElementStyleProperties {
            properties: duplicate_map(&self.properties),
            default_properties: duplicate_map(&self.default_properties),
        }
    }

    /// Merges a child's style with its parent's: the merged result
    /// lands entirely in the authored layer; see [`spec_merged`].
    pub fn merge(child: &ElementStyleProperties, parent: &ElementStyleProperties) -> (r:
        ElementStyleProperties)
        requires
            child.wf(),
            parent.wf(),
        ensures
            r.wf(),
            r@.auth == spec_merged(child@, parent@),
            r@.dflt == Map::<Seq<char>, PrimitiveValueModel>::empty(),
    {
        let ghost cm = child@;
        let ghost pm = parent@;
        let mut result = StringMap::<PrimitiveValue>::new();

        // inheritable authored properties of the parent
        let parent_entries = parent.get_entries();
        let mut i: usize = 0;
        while i < parent_entries.len()
            invariant
                result.wf(),
                forall|a: int, b: int|
                    0 <= a < b < parent_entries@.len() ==> parent_entries@[a].0@
                        != parent_entries@[b].0@,
                forall|a: int|
                    0 <= a < parent_entries@.len() ==> pm.auth.contains_key(
                        #[trigger] parent_entries@[a].0@,
                    ) && parent_entries@[a].1@ == pm.auth[parent_entries@[a].0@],
                forall|k: Seq<char>|
                    pm.auth.contains_key(k) ==> exists|a: int|
                        0 <= a < parent_entries@.len() && parent_entries@[a].0@ == k,
                i <= parent_entries@.len(),
                forall|k: Seq<char>|
                    #![trigger result@.contains_key(k)]
                    result@.contains_key(k) == (key_among(
                        parent_entries@.map_values(|e: (String, PrimitiveValue)| e.0),
                        i as int,
                        k,
                    ) && spec_inheritable(k)),
                forall|k: Seq<char>|
                    #[trigger] result@.contains_key(k) ==> result@[k] == pm.auth[k],
            decreases parent_entries@.len() - i,
        {
            let ghost keyseq = parent_entries@.map_values(|e: (String, PrimitiveValue)| e.0);
            let ghost r0 = result@;
            let name = &parent_entries[i].0;
            let ghost nm = name@;
            if can_be_inherited(name) {
                let value = parent_entries[i].1.duplicate();
                result.set(name.clone(), value);
            }
            proof {
                assert(keyseq[i as int]@ == nm);
                assert forall|k: Seq<char>| #![auto] result@.contains_key(k) == (key_among(
                    keyseq,
                    i + 1,
                    k,
                ) && spec_inheritable(k)) by {
                    if result@.contains_key(k) {
                        if spec_inheritable(nm) && k == nm {
                            assert(key_among(keyseq, i + 1, k));
                        } else {
                            assert(r0.contains_key(k));
                            assert(key_among(keyseq, i as int, k) && spec_inheritable(k));
                            let j = choose|j: int| 0 <= j < i && #[trigger] keyseq[j]@ == k;
                            assert(0 <= j < i + 1 && keyseq[j]@ == k);
                        }
                    }
                    if key_among(keyseq, i + 1, k) && spec_inheritable(k) {
                        let j = choose|j: int| 0 <= j < i + 1 && #[trigger] keyseq[j]@ == k;
                        if j == i {
                            assert(k == nm);
                            assert(result@.contains_key(k));
                        } else {
                            assert(key_among(keyseq, i as int, k));
                            assert(r0.contains_key(k));
                            assert(result@.contains_key(k));
                        }
                    }
                }
                assert forall|k: Seq<char>| #[trigger] result@.contains_key(k) implies result@[k]
                    == pm.auth[k] by {
                    if !(spec_inheritable(nm) && k == nm) {
                        assert(r0.contains_key(k) && result@[k] == r0[k]);
                    }
                }
            }
            i += 1;
        }
        proof {
            assert forall|k: Seq<char>| result@.contains_key(k) == (pm.auth.contains_key(k)
                && spec_inheritable(k)) by {
                let keyseq = parent_entries@.map_values(|e: (String, PrimitiveValue)| e.0);
                if key_among(keyseq, parent_entries@.len() as int, k) {
                    let j = choose|j: int|
                        0 <= j < parent_entries@.len() && keyseq[j]@ == k;
                    assert(parent_entries@[j].0@ == k);
                }
                if pm.auth.contains_key(k) {
                    let j = choose|j: int|
                        0 <= j < parent_entries@.len() && parent_entries@[j].0@ == k;
                    assert(keyseq[j]@ == k);
                }
            }
        }
        let ghost tier1 = result@;

        // the child's own authored properties always win
        let child_entries = child.get_entries();
        let mut i: usize = 0;
        while i < child_entries.len()
            invariant
                result.wf(),
                forall|a: int, b: int|
                    0 <= a < b < child_entries@.len() ==> child_entries@[a].0@
                        != child_entries@[b].0@,
                forall|a: int|
                    0 <= a < child_entries@.len() ==> cm.auth.contains_key(
                        #[trigger] child_entries@[a].0@,
                    ) && child_entries@[a].1@ == cm.auth[child_entries@[a].0@],
                forall|k: Seq<char>|
                    cm.auth.contains_key(k) ==> exists|a: int|
                        0 <= a < child_entries@.len() && child_entries@[a].0@ == k,
                i <= child_entries@.len(),
                forall|k: Seq<char>|
                    #![trigger result@.contains_key(k)]
                    result@.contains_key(k) == (tier1.contains_key(k) || key_among(
                        child_entries@.map_values(|e: (String, PrimitiveValue)| e.0),
                        i as int,
                        k,
                    )),
                forall|k: Seq<char>|
                    #[trigger] result@.contains_key(k) ==> result@[k] == (if key_among(
                        child_entries@.map_values(|e: (String, PrimitiveValue)| e.0),
                        i as int,
                        k,
                    ) {
                        cm.auth[k]
                    } else {
                        tier1[k]
                    }),
            decreases child_entries@.len() - i,
        {
            let ghost keyseq = child_entries@.map_values(|e: (String, PrimitiveValue)| e.0);
            let ghost r0 = result@;
            let name = &child_entries[i].0;
            let ghost nm = name@;
            let value = child_entries[i].1.duplicate();
            result.set(name.clone(), value);
            proof {
                assert(keyseq[i as int]@ == nm);
                assert forall|k: Seq<char>| #![auto] key_among(keyseq, i + 1, k) == (key_among(
                    keyseq,
                    i as int,
                    k,
                ) || k == nm) by {
                    if key_among(keyseq, i + 1, k) {
                        let j = choose|j: int| 0 <= j < i + 1 && #[trigger] keyseq[j]@ == k;
                        if j < i {
                            assert(key_among(keyseq, i as int, k));
                        }
                    }
                    if key_among(keyseq, i as int, k) {
                        let j = choose|j: int| 0 <= j < i && #[trigger] keyseq[j]@ == k;
                        assert(0 <= j < i + 1 && keyseq[j]@ == k);
                    }
                    if k == nm {
                        assert(0 <= i < i + 1 && keyseq[i as int]@ == k);
                        assert(key_among(keyseq, i + 1, k));
                    }
                }
            }
            i += 1;
        }
        let ghost tier2 = result@;

        // inheritable default properties of the parent fill gaps
        let parent_default_entries = parent.get_default_entries();
        let mut i: usize = 0;
        while i < parent_default_entries.len()
            invariant
                result.wf(),
                forall|a: int, b: int|
                    0 <= a < b < parent_default_entries@.len() ==> parent_default_entries@[a].0@
                        != parent_default_entries@[b].0@,
                forall|a: int|
                    0 <= a < parent_default_entries@.len() ==> pm.dflt.contains_key(
                        #[trigger] parent_default_entries@[a].0@,
                    ) && parent_default_entries@[a].1@ == pm.dflt[parent_default_entries@[a].0@],
                forall|k: Seq<char>|
                    pm.dflt.contains_key(k) ==> exists|a: int|
                        0 <= a < parent_default_entries@.len() && parent_default_entries@[a].0@
                            == k,
                i <= parent_default_entries@.len(),
                forall|k: Seq<char>|
                    #![trigger result@.contains_key(k)]
                    result@.contains_key(k) == (tier2.contains_key(k) || (key_among(
                        parent_default_entries@.map_values(|e: (String, PrimitiveValue)| e.0),
                        i as int,
                        k,
                    ) && spec_inheritable(k))),
                forall|k: Seq<char>|
                    #[trigger] result@.contains_key(k) ==> result@[k] == (if tier2.contains_key(
                        k,
                    ) {
                        tier2[k]
                    } else {
                        pm.dflt[k]
                    }),
            decreases parent_default_entries@.len() - i,
        {
            let ghost keyseq = parent_default_entries@.map_values(
                |e: (String, PrimitiveValue)| e.0,
            );
            let ghost r0 = result@;
            let name = &parent_default_entries[i].0;
            let ghost nm = name@;
            if can_be_inherited(name) {
                if !result.contains(name) {
                    let value = parent_default_entries[i].1.duplicate();
                    result.set(name.clone(), value);
                }
            }
            proof {
                assert(keyseq[i as int]@ == nm);
                assert forall|k: Seq<char>| #![auto] key_among(keyseq, i + 1, k) == (key_among(
                    keyseq,
                    i as int,
                    k,
                ) || k == nm) by {
                    if key_among(keyseq, i + 1, k) {
                        let j = choose|j: int| 0 <= j < i + 1 && #[trigger] keyseq[j]@ == k;
                        if j < i {
                            assert(key_among(keyseq, i as int, k));
                        }
                    }
                    if key_among(keyseq, i as int, k) {
                        let j = choose|j: int| 0 <= j < i && #[trigger] keyseq[j]@ == k;
                        assert(0 <= j < i + 1 && keyseq[j]@ == k);
                    }
                    if k == nm {
                        assert(0 <= i < i + 1 && keyseq[i as int]@ == k);
                        assert(key_among(keyseq, i + 1, k));
                    }
                }
            }
            i += 1;
        }
        let ghost tier3 = result@;

        // the child's default properties are the final fallback
        let child_default_entries = child.get_default_entries();
        let mut i: usize = 0;
        while i < child_default_entries.len()
            invariant
                result.wf(),
                forall|a: int, b: int|
                    0 <= a < b < child_default_entries@.len() ==> child_default_entries@[a].0@
                        != child_default_entries@[b].0@,
                forall|a: int|
                    0 <= a < child_default_entries@.len() ==> cm.dflt.contains_key(
                        #[trigger] child_default_entries@[a].0@,
                    ) && child_default_entries@[a].1@ == cm.dflt[child_default_entries@[a].0@],
                forall|k: Seq<char>|
                    cm.dflt.contains_key(k) ==> exists|a: int|
                        0 <= a < child_default_entries@.len() && child_default_entries@[a].0@
                            == k,
                i <= child_default_entries@.len(),
                forall|k: Seq<char>|
                    #![trigger result@.contains_key(k)]
                    result@.contains_key(k) == (tier3.contains_key(k) || key_among(
                        child_default_entries@.map_values(|e: (String, PrimitiveValue)| e.0),
                        i as int,
                        k,
                    )),
                forall|k: Seq<char>|
                    #[trigger] result@.contains_key(k) ==> result@[k] == (if tier3.contains_key(
                        k,
                    ) {
                        tier3[k]
                    } else {
                        cm.dflt[k]
                    }),
            decreases child_default_entries@.len() - i,
        {
            let ghost keyseq = child_default_entries@.map_values(
                |e: (String, PrimitiveValue)| e.0,
            );
            let ghost r0 = result@;
            let name = &child_default_entries[i].0;
            let ghost nm = name@;
            if !result.contains(name) {
                let value = child_default_entries[i].1.duplicate();
                result.set(name.clone(), value);
            }
            proof {
                assert(keyseq[i as int]@ == nm);
                assert forall|k: Seq<char>| #![auto] key_among(keyseq, i + 1, k) == (key_among(
                    keyseq,
                    i as int,
                    k,
                ) || k == nm) by {
                    if key_among(keyseq, i + 1, k) {
                        let j = choose|j: int| 0 <= j < i + 1 && #[trigger] keyseq[j]@ == k;
                        if j < i {
                            assert(key_among(keyseq, i as int, k));
                        }
                    }
                    if key_among(keyseq, i as int, k) {
                        let j = choose|j: int| 0 <= j < i && #[trigger] keyseq[j]@ == k;
                        assert(0 <= j < i + 1 && keyseq[j]@ == k);
                    }
                    if k == nm {
                        assert(0 <= i < i + 1 && keyseq[i as int]@ == k);
                        assert(key_among(keyseq, i + 1, k));
                    }
                }
            }
            i += 1;
        }

        let merged = ElementStyleProperties {
            properties: result,
            default_properties: StringMap::new(),
        };
        proof {
            assert forall|k: Seq<char>| #![auto] merged@.auth.contains_key(k)
                == spec_merged(cm, pm).contains_key(k) by {
                if cm.auth.contains_key(k) {
                    let j = choose|a: int|
                        0 <= a < child_entries@.len() && child_entries@[a].0@ == k;
                    assert(child_entries@.map_values(|e: (String, PrimitiveValue)| e.0)[j]@
                        == k);
                }
                if cm.dflt.contains_key(k) {
                    let j = choose|a: int|
                        0 <= a < child_default_entries@.len() && child_default_entries@[a].0@
                            == k;
                    assert(child_default_entries@.map_values(|e: (String, PrimitiveValue)| e.0)[
                    j]@ == k);
                }
                if pm.dflt.contains_key(k) && spec_inheritable(k) {
                    let j = choose|a: int|
                        0 <= a < parent_default_entries@.len()
                            && parent_default_entries@[a].0@ == k;
                    assert(parent_default_entries@.map_values(
                        |e: (String, PrimitiveValue)| e.0,
                    )[j]@ == k);
                }
                let cks = child_entries@.map_values(|e: (String, PrimitiveValue)| e.0);
                if key_among(cks, child_entries@.len() as int, k) {
                    let j = choose|a: int| 0 <= a < cks.len() && #[trigger] cks[a]@ == k;
                    assert(child_entries@[j].0@ == k);
                }
                let cdks = child_default_entries@.map_values(
                    |e: (String, PrimitiveValue)| e.0,
                );
                if key_among(cdks, child_default_entries@.len() as int, k) {
                    let j = choose|a: int| 0 <= a < cdks.len() && #[trigger] cdks[a]@ == k;
                    assert(child_default_entries@[j].0@ == k);
                }
                let pdks = parent_default_entries@.map_values(
                    |e: (String, PrimitiveValue)| e.0,
                );
                if key_among(pdks, parent_default_entries@.len() as int, k) {
                    let j = choose|a: int| 0 <= a < pdks.len() && #[trigger] pdks[a]@ == k;
                    assert(parent_default_entries@[j].0@ == k);
                }
            }
            assert forall|k: Seq<char>| #![auto] merged@.auth.contains_key(k) implies merged@
                .auth[k] == spec_merged(cm, pm)[k] by {
                let cks = child_entries@.map_values(|e: (String, PrimitiveValue)| e.0);
                let cdks = child_default_entries@.map_values(|e: (String, PrimitiveValue)| e.0);
                let pks = parent_entries@.map_values(|e: (String, PrimitiveValue)| e.0);
                let pdks = parent_default_entries@.map_values(|e: (String, PrimitiveValue)| e.0);
                assert(cm.auth.contains_key(k) == key_among(
                    cks,
                    child_entries@.len() as int,
                    k,
                )) by {
                    if cm.auth.contains_key(k) {
                        let j = choose|a: int|
                            0 <= a < child_entries@.len() && child_entries@[a].0@ == k;
                        assert(cks[j]@ == k);
                    }
                    if key_among(cks, child_entries@.len() as int, k) {
                        let j = choose|a: int| 0 <= a < cks.len() && #[trigger] cks[a]@ == k;
                        assert(child_entries@[j].0@ == k);
                    }
                }
                assert(cm.dflt.contains_key(k) == key_among(
                    cdks,
                    child_default_entries@.len() as int,
                    k,
                )) by {
                    if cm.dflt.contains_key(k) {
                        let j = choose|a: int|
                            0 <= a < child_default_entries@.len() && child_default_entries@[a].0@
                                == k;
                        assert(cdks[j]@ == k);
                    }
                    if key_among(cdks, child_default_entries@.len() as int, k) {
                        let j = choose|a: int| 0 <= a < cdks.len() && #[trigger] cdks[a]@ == k;
                        assert(child_default_entries@[j].0@ == k);
                    }
                }
                assert(pm.auth.contains_key(k) == key_among(
                    pks,
                    parent_entries@.len() as int,
                    k,
                )) by {
                    if pm.auth.contains_key(k) {
                        let j = choose|a: int|
                            0 <= a < parent_entries@.len() && parent_entries@[a].0@ == k;
                        assert(pks[j]@ == k);
                    }
                    if key_among(pks, parent_entries@.len() as int, k) {
                        let j = choose|a: int| 0 <= a < pks.len() && #[trigger] pks[a]@ == k;
                        assert(parent_entries@[j].0@ == k);
                    }
                }
                assert(pm.dflt.contains_key(k) == key_among(
                    pdks,
                    parent_default_entries@.len() as int,
                    k,
                )) by {
                    if pm.dflt.contains_key(k) {
                        let j = choose|a: int|
                            0 <= a < parent_default_entries@.len()
                                && parent_default_entries@[a].0@ == k;
                        assert(pdks[j]@ == k);
                    }
                    if key_among(pdks, parent_default_entries@.len() as int, k) {
                        let j = choose|a: int| 0 <= a < pdks.len() && #[trigger] pdks[a]@ == k;
                        assert(parent_default_entries@[j].0@ == k);
                    }
                }
                assert(tier1.contains_key(k) == (pm.auth.contains_key(k) && spec_inheritable(
                    k,
                )));
                assert(tier2.contains_key(k) == (tier1.contains_key(k) || cm.auth.contains_key(
                    k,
                )));
                assert(tier3.contains_key(k) == (tier2.contains_key(k) || (pm.dflt.contains_key(
                    k,
                ) && spec_inheritable(k))));
            }
            assert(merged@.auth =~= spec_merged(cm, pm));
        }
        merged
    }
}

/// The entries of a style layer, names and values paired.
fn map_entries(m: &StringMap<PrimitiveValue>) -> (r: Vec<(String, PrimitiveValue)>)
    requires
        m.wf(),
    ensures
        forall|i: int, j: int| 0 <= i < j < r@.len() ==> r@[i].0@ != r@[j].0@,
        forall|i: int|
            0 <= i < r@.len() ==> m@.contains_key(#[trigger] r@[i].0@) && r@[i].1@ == m@[r@[
            i].0@],
        forall|k: Seq<char>|
            m@.contains_key(k) ==> exists|i: int| 0 <= i < r@.len() && r@[i].0@ == k,
{
    let keys = m.keys();
    let mut r: Vec<(String, PrimitiveValue)> = Vec::new();
    let mut i: usize = 0;
    while i < keys.len()
        invariant
            m.wf(),
            forall|a: int, b: int| 0 <= a < b < keys@.len() ==> keys@[a]@ != keys@[b]@,
            forall|a: int| 0 <= a < keys@.len() ==> m@.contains_key(#[trigger] keys@[a]@),
            forall|k: Seq<char>|
                m@.contains_key(k) ==> exists|a: int| 0 <= a < keys@.len() && keys@[a]@ == k,
            i <= keys@.len(),
            r@.len() == i,
            forall|a: int| 0 <= a < i ==> r@[a].0@ == keys@[a]@,
            forall|a: int|
                0 <= a < i ==> m@.contains_key(#[trigger] r@[a].0@) && r@[a].1@ == m@[r@[a].0@],
        decreases keys@.len() - i,
    {
        let name = keys[i].clone();
        match m.get(&name) {
            Some(v) => {
                let value = v.duplicate();
                r.push((name, value));
            },
            None => {
                assert(false);
            },
        }
        i += 1;
    }
    proof {
        assert forall|k: Seq<char>| m@.contains_key(k) implies exists|a: int|
            0 <= a < r@.len() && r@[a].0@ == k by {
            let a = choose|a: int| 0 <= a < keys@.len() && keys@[a]@ == k;
            assert(r@[a].0@ == k);
        }
        assert forall|a: int, b: int| 0 <= a < b < r@.len() implies r@[a].0@ != r@[b].0@ by {
            assert(r@[a].0@ == keys@[a]@ && r@[b].0@ == keys@[b]@);
        }
    }
    r
}

/// A copy of a style layer with the same contents.
fn duplicate_map(m: &StringMap<PrimitiveValue>) -> (r: StringMap<PrimitiveValue>)
    requires
        m.wf(),
    ensures
        r.wf(),
        r@ == m@,
{
    let entries = map_entries(m);
    let mut r = StringMap::<PrimitiveValue>::new();
    let mut i: usize = 0;
    while i < entries.len()
        invariant
            r.wf(),
            forall|a: int, b: int| 0 <= a < b < entries@.len() ==> entries@[a].0@ != entries@[b].0@,
            forall|a: int|
                0 <= a < entries@.len() ==> m@.contains_key(#[trigger] entries@[a].0@)
                    && entries@[a].1@ == m@[entries@[a].0@],
            forall|k: Seq<char>|
                m@.contains_key(k) ==> exists|a: int|
                    0 <= a < entries@.len() && entries@[a].0@ == k,
            i <= entries@.len(),
            forall|k: Seq<char>|
                #![trigger r@.contains_key(k)]
                r@.contains_key(k) == (key_among(
                    entries@.map_values(|e: (String, PrimitiveValue)| e.0),
                    i as int,
                    k,
                )),
            forall|k: Seq<char>| #[trigger] r@.contains_key(k) ==> r@[k] == m@[k],
        decreases entries@.len() - i,
    {
        let ghost keyseq = entries@.map_values(|e: (String, PrimitiveValue)| e.0);
        let name = entries[i].0.clone();
        let value = entries[i].1.duplicate();
        r.set(name, value);
        proof {
            let nm = entries@[i as int].0@;
            assert(keyseq[i as int]@ == nm);
            assert forall|k: Seq<char>| #![auto] key_among(keyseq, i + 1, k) == (key_among(
                keyseq,
                i as int,
                k,
            ) || k == nm) by {
                if key_among(keyseq, i + 1, k) {
                    let j = choose|j: int| 0 <= j < i + 1 && #[trigger] keyseq[j]@ == k;
                    if j < i {
                        assert(key_among(keyseq, i as int, k));
                    }
                }
                if key_among(keyseq, i as int, k) {
                    let j = choose|j: int| 0 <= j < i && #[trigger] keyseq[j]@ == k;
                    assert(0 <= j < i + 1 && keyseq[j]@ == k);
                }
                if k == nm {
                    assert(0 <= i < i + 1 && keyseq[i as int]@ == k);
                    assert(key_among(keyseq, i + 1, k));
                }
            }
        }
        i += 1;
    }
    proof {
        assert forall|k: Seq<char>| #![auto] r@.contains_key(k) == m@.contains_key(k) by {
            let keyseq = entries@.map_values(|e: (String, PrimitiveValue)| e.0);
            if key_among(keyseq, entries@.len() as int, k) {
                let j = choose|a: int| 0 <= a < keyseq.len() && #[trigger] keyseq[a]@ == k;
                assert(entries@[j].0@ == k);
            }
            if m@.contains_key(k) {
                let j = choose|a: int| 0 <= a < entries@.len() && entries@[a].0@ == k;
                assert(keyseq[j]@ == k);
            }
        }
        assert(r@ =~= m@);
    }
    r
}

} // verus!
