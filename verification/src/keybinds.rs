use vstd::prelude::*;

verus! {

/// An opaque string-backed key identifier; two keys are equal exactly when
/// their underlying strings are equal.
#[derive(Clone, Debug)]
pub struct Key(pub String);

impl View for Key {
    type V = Seq<char>;

    open spec fn view(&self) -> Seq<char> {
        self.0@
    }
}

impl DeepView for Key {
    type V = Seq<char>;

    open spec fn deep_view(&self) -> Seq<char> {
        self.0@
    }
}

impl Key {
    pub fn new(str: String) -> (key: Key)
        ensures
            key@ == str@,
    {
        Key(str)
    }
}

impl PartialEq for Key {
    /// Two keys are equal exactly when their underlying strings are equal.
    fn eq(&self, other: &Key) -> (r: bool) {
        self.0.eq(&other.0)
    }
}

impl vstd::std_specs::cmp::PartialEqSpecImpl for Key {
    open spec fn obeys_eq_spec() -> bool {
        true
    }

    open spec fn eq_spec(&self, other: &Key) -> bool {
        self.0@ == other.0@
    }
}

/// The closed set of modifier keys a keybinding may carry.
#[derive(Clone, Copy, PartialEq, Eq, Structural, Debug)]
pub enum Modifier {
    Super,
    Ctrl,
    Alt,
    Shift,
}

impl Modifier {
    /// The name under which this modifier's sentinel key is exposed to the
    /// script environment.
    pub open spec fn spec_name(self) -> Seq<char> {
        match self {
            Modifier::Super => "Super"@,
            Modifier::Ctrl => "Ctrl"@,
            Modifier::Alt => "Alt"@,
            Modifier::Shift => "Shift"@,
        }
    }

    /// The sentinel key value that stands for this modifier in a script.
    pub fn sentinel_key(self) -> (key: Key)
        ensures
            key@ == self.spec_name(),
    {
        let name = match self {
            Modifier::Super => "Super",
            Modifier::Ctrl => "Ctrl",
            Modifier::Alt => "Alt",
            Modifier::Shift => "Shift",
        };
        Key(name.to_owned())
    }
}

/// The modifier that a key of the given content stands for: exactly one of
/// the four sentinel names resolves; every other content is not a modifier.
pub open spec fn modifier_of(s: Seq<char>) -> Option<Modifier> {
    if s == "Super"@ {
        Some(Modifier::Super)
    } else if s == "Ctrl"@ {
        Some(Modifier::Ctrl)
    } else if s == "Alt"@ {
        Some(Modifier::Alt)
    } else if s == "Shift"@ {
        Some(Modifier::Shift)
    } else {
        None
    }
}

impl Key {
    /// Resolve this key as a modifier by identity comparison against the four
    /// sentinel values; any other key is not a modifier and yields `None`
    /// (the caller drops it, it never aborts binding construction).
    pub fn as_modifier(&self) -> (r: Option<Modifier>)
        ensures
            r == modifier_of(self@),
    {
        if self.0.eq(&"Super".to_owned()) {
            Some(Modifier::Super)
        } else if self.0.eq(&"Ctrl".to_owned()) {
            Some(Modifier::Ctrl)
        } else if self.0.eq(&"Alt".to_owned()) {
            Some(Modifier::Alt)
        } else if self.0.eq(&"Shift".to_owned()) {
            Some(Modifier::Shift)
        } else {
            None
        }
    }
}

/// A shortcut entry: one mandatory trigger key plus the modifier keys that
/// were successfully cast from a dynamic script-supplied list.
#[derive(Clone)]
pub struct Keybind {
    pub key: Key,
    pub modifiers: Vec<Key>,
}

#[verifier::external_type_specification]
#[verifier::external_body]
pub struct ExDynamic(rhai::Dynamic);

/// What rhai's cast yields for a dynamic value, when asked for a key: the
/// key's characters where the value holds one, `None` otherwise. The cast's
/// result depends on the dynamic value alone.
pub uninterp spec fn cast_of(item: rhai::Dynamic) -> Option<Seq<char>>;

/// The cast result of each element of a dynamic list, in order.
pub open spec fn casts_of(items: Seq<rhai::Dynamic>) -> Seq<Option<Seq<char>>> {
    items.map_values(|item: rhai::Dynamic| cast_of(item))
}

/// Relies on rhai::Dynamic::try_cast: `Some` exactly when the dynamic value
/// holds a `Key`, and then the key it holds.
#[verifier::external_body]
fn cast_to_key(item: &rhai::Dynamic) -> (r: Option<Key>)
    ensures
        r.deep_view() == cast_of(*item),
{
    item.clone().try_cast::<Key>()
}

/// The keys among a list of cast results, in order: the `Some` values kept,
/// the failed casts dropped.
pub open spec fn cast_keys(items: Seq<Option<Seq<char>>>) -> Seq<Seq<char>>
    decreases items.len(),
{
    if items.len() == 0 {
        Seq::empty()
    } else {
        let rest = cast_keys(items.drop_last());
        match items.last() {
            Some(k) => rest.push(k),
            None => rest,
        }
    }
}

/// Keep the successfully cast keys of a dynamic list, in order; elements that
/// failed the cast are dropped, never an error.
#[verifier::loop_isolation(false)]
pub fn collect_cast_keys(items: Vec<Option<Key>>) -> (r: Vec<Key>)
    ensures
        r.deep_view() == cast_keys(items.deep_view()),
{
    let ghost iv = items.deep_view();
    let mut out: Vec<Key> = Vec::new();
    let n = items.len();
    proof {
        assert(out.deep_view() =~= cast_keys(iv.take(0)));
    }
    for i in 0..n
        invariant
            n == items.len(),
            iv == items.deep_view(),
            out.deep_view() == cast_keys(iv.take(i as int)),
    {
        proof {
            assert(iv.take(i + 1).drop_last() =~= iv.take(i as int));
            assert(iv.take(i + 1).last() == iv[i as int]);
        }
        match &items[i] {
            Some(key) => {
                let ghost before = out.deep_view();
                out.push(Key(key.0.clone()));
                proof {
                    assert(iv[i as int] == Some(items[i as int].unwrap()@));
                    assert(out.deep_view() =~= before.push(items[i as int].unwrap()@));
                }
            },
            None => {
                proof {
                    assert(iv[i as int] is None);
                }
            },
        }
    }
    proof {
        assert(iv.take(n as int) =~= iv);
    }
    out
}

impl Keybind {
    /// Build a binding from one trigger key and a dynamic, heterogeneous
    /// modifier list: each element is attempted as a `Key` and kept in order
    /// when the cast succeeds; elements that fail the cast are dropped
    /// without error.
    #[verifier::loop_isolation(false)]
    pub fn new(key: Key, modifiers: rhai::Array) -> (r: Keybind)
        ensures
            r.key@ == key@,
            r.modifiers.deep_view() == cast_keys(casts_of(modifiers@)),
    {
        let ghost mv = modifiers@;
        let mut cast: Vec<Option<Key>> = Vec::new();
        let n = modifiers.len();
        let mut i: usize = 0;
        proof {
            assert(cast.deep_view() =~= casts_of(mv.take(0)));
        }
        while i < n
            invariant
                i <= n,
                n == modifiers.len(),
                mv == modifiers@,
                cast.deep_view() == casts_of(mv.take(i as int)),
            decreases n - i,
        {
            let ghost before = cast.deep_view();
            cast.push(cast_to_key(&modifiers[i]));
            proof {
                assert(cast.deep_view() =~= before.push(cast_of(mv[i as int])));
                assert(casts_of(mv.take(i + 1)) =~= casts_of(mv.take(i as int)).push(
                    cast_of(mv[i as int]),
                ));
            }
            i += 1;
        }
        proof {
            assert(mv.take(n as int) =~= mv);
        }
        Keybind { key, modifiers: collect_cast_keys(cast) }
    }

    /// The modifier set of this binding: each modifier key resolved by
    /// identity against the sentinels, unresolved keys dropped.
    #[verifier::loop_isolation(false)]
    pub fn resolved_modifiers(&self) -> (r: Vec<Modifier>)
        ensures
            r@ == resolved_of(self.modifiers.deep_view()),
    {
        let ghost mv = self.modifiers.deep_view();
        let mut out: Vec<Modifier> = Vec::new();
        let n = self.modifiers.len();
        proof {
            assert(out@ =~= resolved_of(mv.take(0)));
        }
        for i in 0..n
            invariant
                n == self.modifiers.len(),
                    mv == self.modifiers.deep_view(),
                out@ == resolved_of(mv.take(i as int)),
        {
            proof {
                assert(mv.take(i + 1).drop_last() =~= mv.take(i as int));
                assert(mv.take(i + 1).last() == mv[i as int]);
                assert(mv[i as int] == self.modifiers[i as int]@);
            }
            match self.modifiers[i].as_modifier() {
                Some(m) => out.push(m),
                None => (),
            }
        }
        proof {
            assert(mv.take(n as int) =~= mv);
        }
        out
    }
}

/// The modifiers that a list of keys resolves to, in order: each key's
/// `modifier_of`, keys that resolve to none dropped.
pub open spec fn resolved_of(keys: Seq<Seq<char>>) -> Seq<Modifier>
    decreases keys.len(),
{
    if keys.len() == 0 {
        Seq::empty()
    } else {
        let rest = resolved_of(keys.drop_last());
        match modifier_of(keys.last()) {
            Some(m) => rest.push(m),
            None => rest,
        }
    }
}

} // verus!
