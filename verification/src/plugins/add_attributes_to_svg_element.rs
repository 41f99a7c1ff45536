//! Adds attributes to the outer `<svg>` element.
use vstd::prelude::*;
use crate::ast::{attr_set, doc_model, doc_with_root, has_key, take_root, AttrsM, Attributes, Document, ElemM, PluginError};
use crate::text::owned;

verus! {

/// An attribute to add: a bare name (with an empty value), or name-value pairs.
pub enum AttributeValue {
    String(String),
    Object(Vec<(String, String)>),
}

/// Settings of the plugin.
pub struct AddAttributesToSVGElementConfig {
    /// One attribute (or group) to add.
    pub attribute: Option<AttributeValue>,
    /// Several attributes (or groups) to add, in order.
    pub attributes: Option<Vec<AttributeValue>>,
}

impl Default for AddAttributesToSVGElementConfig {
    fn default() -> (r: Self)
        ensures
            r.attribute is None,
            r.attributes is None,
    {
        AddAttributesToSVGElementConfig { attribute: None, attributes: None }
    }
}

/// The name-value pairs an attribute value stands for.
pub open spec fn value_pairs(v: AttributeValue) -> AttrsM {
    match v {
        AttributeValue::String(n) => seq![(n@, Seq::<char>::empty())],
        AttributeValue::Object(ps) => Seq::new(ps@.len(), |i: int| (ps@[i].0@, ps@[i].1@)),
    }
}

/// Adds `(k, v)` unless an attribute named `k` is present.
pub open spec fn add_missing(a: AttrsM, kv: (Seq<char>, Seq<char>)) -> AttrsM {
    if has_key(a, kv.0) {
        a
    } else {
        attr_set(a, kv.0, kv.1)
    }
}

/// Adds the pairs `ps` in order, each only where its name is absent.
pub open spec fn add_pairs(a: AttrsM, ps: AttrsM) -> AttrsM
    decreases ps.len(),
{
    if ps.len() == 0 {
        a
    } else {
        add_missing(add_pairs(a, ps.drop_last()), ps.last())
    }
}

/// The pairs of the single `attribute`.
pub open spec fn single_pairs(c: AddAttributesToSVGElementConfig) -> AttrsM {
    match c.attribute {
        Some(v) => value_pairs(v),
        None => Seq::empty(),
    }
}

/// The pairs of the list `attributes`, in order.
pub open spec fn list_pairs(c: AddAttributesToSVGElementConfig) -> AttrsM {
    match c.attributes {
        Some(vs) => Seq::new(vs@.len(), |i: int| value_pairs(vs@[i])).flatten(),
        None => Seq::empty(),
    }
}

/// All the pairs a configuration adds, in order: `attribute`, then `attributes`.
pub open spec fn config_pairs(c: AddAttributesToSVGElementConfig) -> AttrsM {
    single_pairs(c) + list_pairs(c)
}

proof fn lemma_add_pairs_append(a: AttrsM, p: AttrsM, q: AttrsM)
    ensures
        add_pairs(a, p + q) == add_pairs(add_pairs(a, p), q),
    decreases q.len(),
{
    if q.len() == 0 {
        assert(p + q =~= p);
    } else {
        lemma_add_pairs_append(a, p, q.drop_last());
        assert((p + q).drop_last() =~= p + q.drop_last());
    }
}

/// Plugin that adds attributes to the outer `<svg>` element.
pub struct AddAttributesToSVGElementPlugin {
    pub config: AddAttributesToSVGElementConfig,
}

impl AddAttributesToSVGElementPlugin {
    /// The plugin with nothing to add.
    pub fn new() -> (r: Self)
        ensures
            r.config.attribute is None,
            r.config.attributes is None,
    {
        AddAttributesToSVGElementPlugin { config: AddAttributesToSVGElementConfig::default() }
    }

    /// The plugin with the given settings.
    pub fn with_config(config: AddAttributesToSVGElementConfig) -> (r: Self)
        ensures
            r.config == config,
    {
        AddAttributesToSVGElementPlugin { config }
    }

    /// The plugin's name.
    pub fn name(&self) -> (r: &'static str)
        ensures
            r@ == "addAttributesToSVGElement"@,
    {
        "addAttributesToSVGElement"
    }

    /// What the plugin does.
    pub fn description(&self) -> (r: &'static str)
        ensures
            r@ == "adds attributes to an outer <svg> element"@,
    {
        "adds attributes to an outer <svg> element"
    }

    /// Adds the pairs of one attribute value, each only where absent.
    pub fn apply_attribute_value(&self, attrs: &mut Attributes, v: &AttributeValue)
        ensures
            final(attrs)@ == add_pairs(old(attrs)@, value_pairs(*v)),
    {
        match v {
            AttributeValue::String(name) => {
                assert(value_pairs(*v).drop_last() =~= Seq::<(Seq<char>, Seq<char>)>::empty());
                assert(add_pairs(old(attrs)@, value_pairs(*v).drop_last()) == old(attrs)@);
                assert(value_pairs(*v).last() == (name@, Seq::<char>::empty()));
                if !attrs.contains_key(name.as_str()) {
                    attrs.insert(name.clone(), String::new());
                }
            },
            AttributeValue::Object(ps) => {
                let ghost q = value_pairs(*v);
                let n = ps.len();
                let mut i: usize = 0;
                assert(q.take(0) =~= Seq::<(Seq<char>, Seq<char>)>::empty());
                while i < n
                    invariant
                        n == ps@.len(),
                        q == Seq::new(ps@.len(), |i: int| (ps@[i].0@, ps@[i].1@)),
                        0 <= i <= n,
                        attrs@ == add_pairs(old(attrs)@, q.take(i as int)),
                    decreases n - i,
                {
                    assert(q.take(i + 1).drop_last() =~= q.take(i as int));
                    assert(q.take(i + 1).last() == q[i as int]);
                    if !attrs.contains_key(ps[i].0.as_str()) {
                        attrs.insert(ps[i].0.clone(), ps[i].1.clone());
                    }
                    i += 1;
                }
                assert(q.take(n as int) =~= q);
            },
        }
    }

    /// Adds every configured pair, each only where absent.
    pub fn apply_attributes(&self, attrs: &mut Attributes)
        ensures
            final(attrs)@ == add_pairs(old(attrs)@, config_pairs(self.config)),
    {
        let ghost first = single_pairs(self.config);
        if let Some(v) = &self.config.attribute {
            self.apply_attribute_value(attrs, v);
        }
        assert(add_pairs(old(attrs)@, Seq::<(Seq<char>, Seq<char>)>::empty()) == old(attrs)@);
        assert(attrs@ == add_pairs(old(attrs)@, first));
        let ghost a1 = attrs@;
        if let Some(vs) = &self.config.attributes {
            let ghost parts = Seq::new(vs@.len(), |i: int| value_pairs(vs@[i]));
            let n = vs.len();
            let mut i: usize = 0;
            assert(parts.take(0).flatten() =~= Seq::<(Seq<char>, Seq<char>)>::empty());
            while i < n
                invariant
                    n == vs@.len(),
                    parts == Seq::new(vs@.len(), |i: int| value_pairs(vs@[i])),
                    0 <= i <= n,
                    attrs@ == add_pairs(a1, parts.take(i as int).flatten()),
                decreases n - i,
            {
                proof {
                    assert(parts.take(i + 1) =~= parts.take(i as int).push(parts[i as int]));
                    parts.take(i as int).lemma_flatten_push(parts[i as int]);
                    lemma_add_pairs_append(a1, parts.take(i as int).flatten(), parts[i as int]);
                }
                self.apply_attribute_value(attrs, &vs[i]);
                i += 1;
            }
            assert(parts.take(n as int) =~= parts);
            proof {
                lemma_add_pairs_append(old(attrs)@, first, parts.flatten());
            }
        } else {
            assert(config_pairs(self.config) =~= first);
        }
    }

    /// Adds the configured attributes to the root when it is an `<svg>` element.
    pub fn apply(&self, document: &mut Document) -> (r: Result<(), PluginError>)
        ensures
            r is Ok,
            doc_model(*final(document)) == if doc_model(*old(document)).root.name == "svg"@ {
                doc_with_root(
                    doc_model(*old(document)),
                    ElemM {
                        attrs: add_pairs(doc_model(*old(document)).root.attrs, config_pairs(self.config)),
                        ..doc_model(*old(document)).root
                    },
                )
            } else {
                doc_model(*old(document))
            },
    {
        if document.root.is_named("svg") {
            let mut root = take_root(document);
            self.apply_attributes(&mut root.attributes);
            document.root = root;
            assert(crate::ast::elem_model(document.root).children =~= doc_model(*old(document)).root.children);
        }
        Ok(())
    }
}

} // verus!
