//! The key table of a record-key enum: each unit variant's string key (a
//! common prefix plus its own `key` attribute) and optional link address,
//! with every key unique.
//!
//! The enum is described by plain values: its attributes and its variants
//! with theirs. An attribute written as `name = "text"` carries its text; any
//! other form carries none.

use vstd::prelude::*;


verus! {

broadcast use vstd::seq_lib::group_seq_properties;

/// One attribute: its name, and its string value when written as
/// `name = "text"`.
#[derive(Debug, Clone)]
pub struct AttrSpec {
    pub name: String,
    pub value: Option<String>,
}

/// One enum variant: its name, whether it is a unit variant, and its
/// attributes in order.
#[derive(Debug, Clone)]
pub struct VariantSpec {
    pub name: String,
    pub unit: bool,
    pub attrs: Vec<AttrSpec>,
}

/// The item a record key is derived for.
#[derive(Debug, Clone)]
pub struct EnumSpec {
    /// Whether the item is an enum.
    pub is_enum: bool,
    /// The item's attributes in order.
    pub attrs: Vec<AttrSpec>,
    /// The variants in declaration order.
    pub variants: Vec<VariantSpec>,
}

/// One row of the key table.
#[derive(Debug, Clone, PartialEq, Eq)]
pub struct KeyEntry {
    /// The variant.
    pub variant: String,
    /// The full key: the prefix, then the variant's own key.
    pub key: String,
    /// The variant's link address, if any.
    pub link: Option<String>,
}

/// Why no key table can be derived.
#[derive(Debug, Clone, PartialEq, Eq)]
pub enum KeyError {
    /// The item is not an enum.
    NotAnEnum,
    /// An attribute of this name is not written as `name = "text"`.
    MalformedAttr { attr: String },
    /// This variant has fields.
    NotUnitVariant { variant: String },
    /// This variant has no `key` attribute.
    MissingKey { variant: String },
    /// This full key is already taken by an earlier variant.
    DuplicateKey { key: String },
}

/// The text of an attribute name.
pub open spec fn key_attr() -> Seq<char> {
    "key"@
}

/// The text of an attribute name.
pub open spec fn prefix_attr() -> Seq<char> {
    "key_prefix"@
}

/// The text of an attribute name.
pub open spec fn link_attr() -> Seq<char> {
    "link_address"@
}

/// The first attribute named `name`: `Some(value)`, the value being absent
/// when the attribute is not written as `name = "text"`.
pub open spec fn attr_lookup(attrs: Seq<AttrSpec>, name: Seq<char>) -> Option<Option<Seq<char>>>
    decreases attrs.len(),
{
    if attrs.len() == 0 {
        None
    } else if attrs[0].name@ == name {
        Some(
            match attrs[0].value {
                Some(v) => Some(v@),
                None => None,
            },
        )
    } else {
        attr_lookup(attrs.drop_first(), name)
    }
}

/// What a variant on its own yields: its full key and link, or the first of
/// its flaws (fields, then the key attribute, then the link attribute).
pub open spec fn variant_entry(v: VariantSpec, prefix: Seq<char>) -> Result<(Seq<char>, Option<Seq<char>>), KeyError> {
    if !v.unit {
        Err(KeyError::NotUnitVariant { variant: v.name })
    } else {
        match attr_lookup(v.attrs@, key_attr()) {
            None => Err(KeyError::MissingKey { variant: v.name }),
            Some(None) => Err(KeyError::MalformedAttr { attr: arbitrary_named(key_attr()) }),
            Some(Some(k)) => match attr_lookup(v.attrs@, link_attr()) {
                Some(None) => Err(KeyError::MalformedAttr { attr: arbitrary_named(link_attr()) }),
                Some(Some(l)) => Ok((prefix + k, Some(l))),
                None => Ok((prefix + k, None)),
            },
        }
    }
}

/// The error value naming an attribute; only its text is specified.
pub open spec fn arbitrary_named(name: Seq<char>) -> String {
    choose|s: String| s@ == name
}

/// Whether two errors are the same, comparing names by their text.
pub open spec fn same_error(a: KeyError, b: KeyError) -> bool {
    match (a, b) {
        (KeyError::NotAnEnum, KeyError::NotAnEnum) => true,
        (KeyError::MalformedAttr { attr: x }, KeyError::MalformedAttr { attr: y }) => x@ == y@,
        (KeyError::NotUnitVariant { variant: x }, KeyError::NotUnitVariant { variant: y }) => x@ == y@,
        (KeyError::MissingKey { variant: x }, KeyError::MissingKey { variant: y }) => x@ == y@,
        (KeyError::DuplicateKey { key: x }, KeyError::DuplicateKey { key: y }) => x@ == y@,
        _ => false,
    }
}

/// The full key of an entry that is known to succeed.
pub open spec fn entry_key(v: VariantSpec, prefix: Seq<char>) -> Seq<char> {
    variant_entry(v, prefix)->Ok_0.0
}

/// The first flaw among the first `n` variants, in order: a variant's own
/// flaw, or a full key already taken by an earlier variant.
pub open spec fn first_flaw(vs: Seq<VariantSpec>, prefix: Seq<char>, n: int) -> Option<KeyError>
    decreases n,
{
    if n <= 0 {
        None
    } else {
        match first_flaw(vs, prefix, n - 1) {
            Some(e) => Some(e),
            None => match variant_entry(vs[n - 1], prefix) {
                Err(e) => Some(e),
                Ok((k, _)) => if exists|j: int| 0 <= j < n - 1 && entry_key(vs[j], prefix) == k {
                    Some(KeyError::DuplicateKey { key: arbitrary_named(k) })
                } else {
                    None
                },
            },
        }
    }
}

/// The prefix, when its attribute is well formed: nothing when there is
/// none.
pub open spec fn prefix_of(e: EnumSpec) -> Option<Seq<char>> {
    match attr_lookup(e.attrs@, prefix_attr()) {
        None => Some(Seq::empty()),
        Some(Some(p)) => Some(p),
        Some(None) => None,
    }
}

/// Position of the first attribute named `name`.
fn find_attr(attrs: &Vec<AttrSpec>, name: &str) -> (r: Option<usize>)
    ensures
        match r {
            Some(i) => i < attrs@.len() && attr_lookup(attrs@, name@) == Some(
                match attrs@[i as int].value {
                    Some(v) => Some(v@),
                    None => None,
                },
            ),
            None => attr_lookup(attrs@, name@) is None,
        },
{
    let n = name.to_owned();
    let mut i: usize = 0;
    while i < attrs.len()
        invariant
            n@ == name@,
            i <= attrs@.len(),
            attr_lookup(attrs@, name@) == attr_lookup(attrs@.skip(i as int), name@),
        decreases attrs.len() - i,
    {
        assert(attrs@.skip(i as int)[0] == attrs@[i as int]);
        assert(attrs@.skip(i as int).drop_first() == attrs@.skip(i + 1));
        if attrs[i].name == n {
            return Some(i);
        }
        i = i + 1;
    }
    assert(attrs@.skip(i as int).len() == 0);
    None
}

/// Reads the attribute `name`: `Ok(None)` when absent, `Ok(Some(text))`
/// when written as `name = "text"`, an error otherwise.
fn read_attr(attrs: &Vec<AttrSpec>, name: &str) -> (r: Result<Option<String>, KeyError>)
    ensures
        match attr_lookup(attrs@, name@) {
            None => r matches Ok(None),
            Some(Some(v)) => r matches Ok(Some(s)) && s@ == v,
            Some(None) => r matches Err(KeyError::MalformedAttr { attr }) && attr@ == name@,
        },
{
    match find_attr(attrs, name) {
        None => Ok(None),
        Some(i) => match &attrs[i].value {
            Some(v) => Ok(Some(v.clone())),
            None => Err(KeyError::MalformedAttr { attr: name.to_owned() }),
        },
    }
}

/// The full key and link of one variant, or its first flaw.
fn read_variant(v: &VariantSpec, prefix: &String) -> (r: Result<(String, Option<String>), KeyError>)
    ensures
        match variant_entry(*v, prefix@) {
            Ok((k, l)) => r matches Ok((k2, l2)) && k2@ == k && match l {
                Some(x) => l2 matches Some(y) && y@ == x,
                None => l2 is None,
            },
            Err(e) => r matches Err(e2) && same_error(e, e2),
        },
{
    proof {
        reveal_strlit("key");
        reveal_strlit("link_address");
    }
    if !v.unit {
        return Err(KeyError::NotUnitVariant { variant: v.name.clone() });
    }
    let key = match read_attr(&v.attrs, "key") {
        Ok(Some(k)) => k,
        Ok(None) => return Err(KeyError::MissingKey { variant: v.name.clone() }),
        Err(e) => return Err(e),
    };
    let link = match read_attr(&v.attrs, "link_address") {
        Ok(l) => l,
        Err(e) => return Err(e),
    };
    let full = prefix.clone().concat(key.as_str());
    Ok((full, link))
}

/// The key table of a record-key enum: one entry per variant, in order,
/// each key the prefix followed by the variant's own key. Refused with the
/// first flaw: not an enum, a malformed prefix attribute, then per variant
/// in order its fields, its key attribute, its link attribute, and a key an
/// earlier variant already has.
pub fn record_key_table(e: &EnumSpec) -> (r: Result<Vec<KeyEntry>, KeyError>)
    ensures
        !e.is_enum ==> r matches Err(KeyError::NotAnEnum),
        e.is_enum && prefix_of(*e) is None ==> (r matches Err(KeyError::MalformedAttr { attr }) && attr@
            == prefix_attr()),
        e.is_enum && prefix_of(*e) is Some ==> match first_flaw(e.variants@, prefix_of(*e)->Some_0, e.variants@.len() as int) {
            Some(f) => r matches Err(e2) && same_error(f, e2),
            None => r matches Ok(entries) && entries@.len() == e.variants@.len() && forall|i: int|
                0 <= i < entries@.len() ==> {
                    &&& (#[trigger] entries@[i]).variant@ == e.variants@[i].name@
                    &&& entries@[i].key@ == entry_key(e.variants@[i], prefix_of(*e)->Some_0)
                    &&& match variant_entry(e.variants@[i], prefix_of(*e)->Some_0)->Ok_0.1 {
                        Some(x) => entries@[i].link matches Some(y) && y@ == x,
                        None => entries@[i].link is None,
                    }
                },
        },
{
    if !e.is_enum {
        return Err(KeyError::NotAnEnum);
    }
    proof {
        reveal_strlit("key_prefix");
    }
    let prefix = match read_attr(&e.attrs, "key_prefix") {
        Ok(Some(p)) => p,
        Ok(None) => String::new(),
        Err(err) => return Err(err),
    };
    let ghost p = prefix@;
    let ghost vs = e.variants@;
    let mut entries: Vec<KeyEntry> = Vec::new();
    let mut i: usize = 0;
    while i < e.variants.len()
        invariant
            vs == e.variants@,
            e.is_enum,
            p == prefix@,
            prefix_of(*e) == Some(p),
            i <= vs.len(),
            first_flaw(vs, p, i as int) is None,
            entries@.len() == i,
            forall|j: int|
                0 <= j < i ==> {
                    &&& variant_entry(vs[j], p) is Ok
                    &&& (#[trigger] entries@[j]).variant@ == vs[j].name@
                    &&& entries@[j].key@ == entry_key(vs[j], p)
                    &&& match variant_entry(vs[j], p)->Ok_0.1 {
                        Some(x) => entries@[j].link matches Some(y) && y@ == x,
                        None => entries@[j].link is None,
                    }
                },
        decreases vs.len() - i,
    {
        let (key, link) = match read_variant(&e.variants[i], &prefix) {
            Ok(pair) => pair,
            Err(err) => {
                assert(first_flaw(vs, p, i + 1) == Some(variant_entry(vs[i as int], p)->Err_0));
                proof {
                    lemma_flaw_persists(vs, p, i + 1, vs.len() as int);
                }
                return Err(err);
            },
        };
        assert(variant_entry(vs[i as int], p) is Ok);
        assert(entry_key(vs[i as int], p) == key@);
        let mut j: usize = 0;
        while j < i
            invariant
                vs == e.variants@,
                e.is_enum,
                p == prefix@,
                prefix_of(*e) == Some(p),
                first_flaw(vs, p, i as int) is None,
                variant_entry(vs[i as int], p) is Ok,
                entry_key(vs[i as int], p) == key@,
                i < vs.len(),
                j <= i,
                entries@.len() == i,
                forall|m: int| 0 <= m < j ==> entry_key(vs[m], p) != key@,
                forall|m: int| 0 <= m < i ==> (#[trigger] entries@[m]).key@ == entry_key(vs[m], p),
            decreases i - j,
        {
            if entries[j].key == key {
                assert(entry_key(vs[j as int], p) == key@);
                assert(first_flaw(vs, p, i + 1) == Some(KeyError::DuplicateKey { key: arbitrary_named(key@) }));
                proof {
                    lemma_flaw_persists(vs, p, i + 1, vs.len() as int);
                    let s: String = arbitrary_named(key@);
                    assert(s@ == key@);
                }
                return Err(KeyError::DuplicateKey { key });
            }
            j = j + 1;
        }
        assert(first_flaw(vs, p, i + 1) is None);
        let ghost before = entries@;
        entries.push(KeyEntry { variant: e.variants[i].name.clone(), key, link });
        assert(entries@ == before.push(entries@.last()));
        i = i + 1;
    }
    Ok(entries)
}

/// Once a flaw is found among the first `n` variants, it stays the first.
proof fn lemma_flaw_persists(vs: Seq<VariantSpec>, prefix: Seq<char>, n: int, m: int)
    requires
        n <= m,
        first_flaw(vs, prefix, n) is Some,
    ensures
        first_flaw(vs, prefix, m) == first_flaw(vs, prefix, n),
    decreases m - n,
{
    if n < m {
        lemma_flaw_persists(vs, prefix, n, m - 1);
    }
}

/// A derived key table never holds the same key twice.
pub proof fn law_derived_keys_are_unique(vs: Seq<VariantSpec>, prefix: Seq<char>, n: int)
    requires
        0 <= n <= vs.len(),
        first_flaw(vs, prefix, n) is None,
    ensures
        forall|i: int, j: int|
            0 <= i < j < n ==> entry_key(vs[i], prefix) != entry_key(vs[j], prefix),
        forall|i: int| 0 <= i < n ==> variant_entry(vs[i], prefix) is Ok,
    decreases n,
{
    if n > 0 {
        law_derived_keys_are_unique(vs, prefix, n - 1);
    }
}

} // verus!
