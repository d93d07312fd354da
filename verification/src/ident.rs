//! Identities of call sites and of the entities they drive.
use vstd::prelude::*;

verus! {

/// The address of a call site, as captured by `#[track_caller]`.
#[derive(Hash, Eq, PartialEq, Structural, Debug, Clone, Copy)]
pub struct Loc(u64);

impl Loc {
    /// A call site given by its address.
    pub fn from_address(address: u64) -> (loc: Loc)
        ensures
            loc.address() == address,
    {
        Loc(address)
    }

    /// The address that identifies this call site.
    pub closed spec fn address(self) -> u64 {
        self.0
    }

    /// The address that identifies this call site.
    pub fn callsite(&self) -> (address: u64)
        ensures
            address == self.address(),
    {
        self.0
    }
}

/// What a key stands for: an integer or the characters of a string.
pub enum KeyView {
    U64(u64),
    Str(Seq<char>),
}

/// A user-supplied key that tells apart entities created from one call site.
#[derive(Hash, Eq, Debug, Clone, Copy)]
pub enum Key {
    U64(u64),
    Str(&'static str),
}

impl View for Key {
    type V = KeyView;

    open spec fn view(&self) -> KeyView {
        match self {
            Key::U64(v) => KeyView::U64(*v),
            Key::Str(s) => KeyView::Str(s@),
        }
    }
}

/// `<str as PartialEq>::eq`: two strings are equal exactly when they hold
/// the same characters.
#[verifier::external_body]
fn same_str(a: &str, b: &str) -> (same: bool)
    ensures
        same == (a@ == b@),
{
    a == b
}

impl PartialEq for Key {
    fn eq(&self, other: &Key) -> (same: bool) {
        match (self, other) {
            (Key::U64(a), Key::U64(b)) => *a == *b,
            (Key::Str(a), Key::Str(b)) => same_str(a, b),
            _ => false,
        }
    }
}

impl vstd::std_specs::cmp::PartialEqSpecImpl for Key {
    open spec fn obeys_eq_spec() -> bool {
        true
    }

    open spec fn eq_spec(&self, other: &Key) -> bool {
        self@ == other@
    }
}

impl From<u64> for Key {
    fn from(v: u64) -> (key: Key) {
        Key::U64(v)
    }
}

impl vstd::std_specs::convert::FromSpecImpl<u64> for Key {
    open spec fn obeys_from_spec() -> bool {
        true
    }

    open spec fn from_spec(v: u64) -> Key {
        Key::U64(v)
    }
}


impl From<u32> for Key {
    fn from(v: u32) -> (key: Key) {
        Key::U64(v as u64)
    }
}

impl vstd::std_specs::convert::FromSpecImpl<u32> for Key {
    open spec fn obeys_from_spec() -> bool {
        true
    }

    open spec fn from_spec(v: u32) -> Key {
        Key::U64(v as u64)
    }
}

impl From<usize> for Key {
    fn from(v: usize) -> (key: Key) {
        Key::U64(v as u64)
    }
}

impl vstd::std_specs::convert::FromSpecImpl<usize> for Key {
    open spec fn obeys_from_spec() -> bool {
        true
    }

    open spec fn from_spec(v: usize) -> Key {
        Key::U64(v as u64)
    }
}

impl From<&'static str> for Key {
    fn from(v: &'static str) -> (key: Key) {
        Key::Str(v)
    }
}

impl vstd::std_specs::convert::FromSpecImpl<&'static str> for Key {
    open spec fn obeys_from_spec() -> bool {
        true
    }

    open spec fn from_spec(v: &'static str) -> Key {
        Key::Str(v)
    }
}

/// How a call names the entity it drives and the call site it stands for.
#[derive(Debug, Clone, Copy)]
pub enum Ident {
    /// Entity and call identified by the call site alone.
    Loc(Loc),
    /// Entity identified by the key alone, call by call site and key.
    Keyed(Loc, Key),
    /// Entity and call identified by call site and key.
    LocKeyed(Loc, Key),
}

/// What an [`Ident`] stands for.
pub enum IdentView {
    Loc(u64),
    Keyed(u64, KeyView),
    LocKeyed(u64, KeyView),
}

impl View for Ident {
    type V = IdentView;

    open spec fn view(&self) -> IdentView {
        match self {
            Ident::Loc(l) => IdentView::Loc(l.address()),
            Ident::Keyed(l, k) => IdentView::Keyed(l.address(), k@),
            Ident::LocKeyed(l, k) => IdentView::LocKeyed(l.address(), k@),
        }
    }
}

/// The identity of a call: which calls of one frame count as the same.
#[derive(Hash, Eq, Debug, Clone, Copy)]
pub enum CallsiteIdent {
    LocOnly(Loc),
    WithKey(Loc, Key),
}

/// What a [`CallsiteIdent`] stands for.
pub enum CallsiteView {
    LocOnly(u64),
    WithKey(u64, KeyView),
}

impl View for CallsiteIdent {
    type V = CallsiteView;

    open spec fn view(&self) -> CallsiteView {
        match self {
            CallsiteIdent::LocOnly(l) => CallsiteView::LocOnly(l.address()),
            CallsiteIdent::WithKey(l, k) => CallsiteView::WithKey(l.address(), k@),
        }
    }
}

/// The identity of an entity: which calls drive the same entity.
#[derive(Hash, Eq, Debug, Clone, Copy)]
pub enum EntityIdent {
    LocOnly(Loc),
    WithKey(Loc, Key),
    Global(Key),
}

/// What an [`EntityIdent`] stands for.
pub enum EntityView {
    LocOnly(u64),
    WithKey(u64, KeyView),
    Global(KeyView),
}

impl View for EntityIdent {
    type V = EntityView;

    open spec fn view(&self) -> EntityView {
        match self {
            EntityIdent::LocOnly(l) => EntityView::LocOnly(l.address()),
            EntityIdent::WithKey(l, k) => EntityView::WithKey(l.address(), k@),
            EntityIdent::Global(k) => EntityView::Global(k@),
        }
    }
}

/// The call site that an identity names.
pub open spec fn callsite_of(i: IdentView) -> CallsiteView {
    match i {
        IdentView::Loc(l) => CallsiteView::LocOnly(l),
        IdentView::Keyed(l, k) => CallsiteView::WithKey(l, k),
        IdentView::LocKeyed(l, k) => CallsiteView::WithKey(l, k),
    }
}

/// The entity that an identity names.
pub open spec fn entity_of(i: IdentView) -> EntityView {
    match i {
        IdentView::Loc(l) => EntityView::LocOnly(l),
        IdentView::Keyed(_l, k) => EntityView::Global(k),
        IdentView::LocKeyed(l, k) => EntityView::WithKey(l, k),
    }
}

fn same_loc(a: &Loc, b: &Loc) -> (same: bool)
    ensures
        same == (a.address() == b.address()),
{
    a.0 == b.0
}

impl PartialEq for CallsiteIdent {
    fn eq(&self, other: &CallsiteIdent) -> (same: bool) {
        match (self, other) {
            (CallsiteIdent::LocOnly(a), CallsiteIdent::LocOnly(b)) => same_loc(a, b),
            (CallsiteIdent::WithKey(a, ka), CallsiteIdent::WithKey(b, kb)) => same_loc(a, b)
                && ka.eq(kb),
            _ => false,
        }
    }
}

impl vstd::std_specs::cmp::PartialEqSpecImpl for CallsiteIdent {
    open spec fn obeys_eq_spec() -> bool {
        true
    }

    open spec fn eq_spec(&self, other: &CallsiteIdent) -> bool {
        self@ == other@
    }
}

impl PartialEq for EntityIdent {
    fn eq(&self, other: &EntityIdent) -> (same: bool) {
        match (self, other) {
            (EntityIdent::LocOnly(a), EntityIdent::LocOnly(b)) => same_loc(a, b),
            (EntityIdent::WithKey(a, ka), EntityIdent::WithKey(b, kb)) => same_loc(a, b) && ka.eq(
                kb,
            ),
            (EntityIdent::Global(ka), EntityIdent::Global(kb)) => ka.eq(kb),
            _ => false,
        }
    }
}

impl vstd::std_specs::cmp::PartialEqSpecImpl for EntityIdent {
    open spec fn obeys_eq_spec() -> bool {
        true
    }

    open spec fn eq_spec(&self, other: &EntityIdent) -> bool {
        self@ == other@
    }
}

impl From<Ident> for CallsiteIdent {
    fn from(value: Ident) -> (c: CallsiteIdent) {
        match value {
            Ident::Loc(loc) => CallsiteIdent::LocOnly(loc),
            Ident::Keyed(loc, key) => CallsiteIdent::WithKey(loc, key),
            Ident::LocKeyed(loc, key) => CallsiteIdent::WithKey(loc, key),
        }
    }
}

impl vstd::std_specs::convert::FromSpecImpl<Ident> for CallsiteIdent {
    open spec fn obeys_from_spec() -> bool {
        true
    }

    open spec fn from_spec(value: Ident) -> CallsiteIdent {
        match value {
            Ident::Loc(loc) => CallsiteIdent::LocOnly(loc),
            Ident::Keyed(loc, key) => CallsiteIdent::WithKey(loc, key),
            Ident::LocKeyed(loc, key) => CallsiteIdent::WithKey(loc, key),
        }
    }
}

impl From<Ident> for EntityIdent {
    fn from(value: Ident) -> (e: EntityIdent) {
        match value {
            Ident::Loc(loc) => EntityIdent::LocOnly(loc),
            Ident::Keyed(_loc, key) => EntityIdent::Global(key),
            Ident::LocKeyed(loc, key) => EntityIdent::WithKey(loc, key),
        }
    }
}

impl vstd::std_specs::convert::FromSpecImpl<Ident> for EntityIdent {
    open spec fn obeys_from_spec() -> bool {
        true
    }

    open spec fn from_spec(value: Ident) -> EntityIdent {
        match value {
            Ident::Loc(loc) => EntityIdent::LocOnly(loc),
            Ident::Keyed(_loc, key) => EntityIdent::Global(key),
            Ident::LocKeyed(loc, key) => EntityIdent::WithKey(loc, key),
        }
    }
}

/// A key given with `Ident::Keyed` names one entity wherever it is used,
/// while the calls from each call site stay calls of their own; with
/// `Ident::LocKeyed` the same call site and key name the same call but an
/// entity of that call site alone.
pub proof fn lemma_keyed_entity_is_global(l1: u64, l2: u64, k: KeyView)
    ensures
        entity_of(IdentView::Keyed(l1, k)) == entity_of(IdentView::Keyed(l2, k)),
        l1 != l2 ==> callsite_of(IdentView::Keyed(l1, k)) != callsite_of(IdentView::Keyed(l2, k)),
        callsite_of(IdentView::Keyed(l1, k)) == callsite_of(IdentView::LocKeyed(l1, k)),
        entity_of(IdentView::Keyed(l1, k)) != entity_of(IdentView::LocKeyed(l1, k)),
        l1 != l2 ==> entity_of(IdentView::LocKeyed(l1, k)) != entity_of(IdentView::LocKeyed(l2, k)),
{
}

/// Distinct identities of one kind name distinct call sites, and an
/// identity made of a call site alone is never confused with a keyed one.
pub proof fn lemma_call_sites_are_distinct(l1: u64, l2: u64, k1: KeyView, k2: KeyView)
    ensures
        l1 != l2 ==> callsite_of(IdentView::Loc(l1)) != callsite_of(IdentView::Loc(l2)),
        callsite_of(IdentView::Loc(l1)) != callsite_of(IdentView::LocKeyed(l2, k2)),
        k1 != k2 ==> callsite_of(IdentView::LocKeyed(l1, k1)) != callsite_of(IdentView::LocKeyed(l1, k2)),
{
}

/// A call site with a key names an entity of its own for each key, and a
/// call of its own for each key: different keys at one call site never
/// share an entity or a call.
pub proof fn lemma_keys_at_one_call_site_are_distinct(l: u64, k1: KeyView, k2: KeyView)
    ensures
        entity_of(IdentView::LocKeyed(l, k1)) == EntityView::WithKey(l, k1),
        k1 != k2 ==> entity_of(IdentView::LocKeyed(l, k1)) != entity_of(IdentView::LocKeyed(l, k2)),
        k1 != k2 ==> callsite_of(IdentView::LocKeyed(l, k1)) != callsite_of(IdentView::LocKeyed(l, k2)),
        entity_of(IdentView::LocKeyed(l, k1)) != entity_of(IdentView::Loc(l)),
        k1 != k2 ==> entity_of(IdentView::Keyed(l, k1)) != entity_of(IdentView::Keyed(l, k2)),
{
}

/// The entity identity that `From` gives is the one `entity_of` names, for
/// every identity.
pub proof fn lemma_entity_ident_names_its_entity(l: Loc, k: Key)
    ensures
        <EntityIdent as vstd::std_specs::convert::FromSpec<Ident>>::from_spec(Ident::LocKeyed(l, k))
            == EntityIdent::WithKey(l, k),
        <EntityIdent as vstd::std_specs::convert::FromSpec<Ident>>::from_spec(Ident::Keyed(l, k))
            == EntityIdent::Global(k),
        <EntityIdent as vstd::std_specs::convert::FromSpec<Ident>>::from_spec(Ident::Loc(l))
            == EntityIdent::LocOnly(l),
        <CallsiteIdent as vstd::std_specs::convert::FromSpec<Ident>>::from_spec(Ident::LocKeyed(l, k))
            == CallsiteIdent::WithKey(l, k),
        <CallsiteIdent as vstd::std_specs::convert::FromSpec<Ident>>::from_spec(Ident::Keyed(l, k))
            == CallsiteIdent::WithKey(l, k),
        <CallsiteIdent as vstd::std_specs::convert::FromSpec<Ident>>::from_spec(Ident::Loc(l))
            == CallsiteIdent::LocOnly(l),
{
}

} // verus!
