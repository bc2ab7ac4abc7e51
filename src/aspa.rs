//! Autonomous System Provider Authorization: the definitions that a CA holds,
//! and the rules by which its ASPA objects are issued, renewed and withdrawn.

use rpki::repository::aspa::{AspaBuilder, ProviderAs};
use rpki::repository::resources::Asn;
use vstd::prelude::*;

use crate::encoding::{base64_encoding, encode_base64};
use crate::error::Error;
use vstd::string::StringExecFns;

verus! {

/// The customer ASN of an ASPA definition.
pub type AspaCustomer = u32;

//------------ AspaDefinition ------------------------------------------------

/// A customer ASN with the ordered list of provider ASNs it authorizes.
pub struct AspaDefinition {
    customer: AspaCustomer,
    providers: Vec<u32>,
}

pub struct AspaDefinitionView {
    pub customer: AspaCustomer,
    pub providers: Seq<u32>,
}

impl View for AspaDefinition {
    type V = AspaDefinitionView;

    closed spec fn view(&self) -> AspaDefinitionView {
        AspaDefinitionView { customer: self.customer, providers: self.providers@ }
    }
}

/// A change to the providers of a definition: providers to add and providers
/// to remove.
pub struct AspaProvidersUpdate {
    added: Vec<u32>,
    removed: Vec<u32>,
}

impl AspaProvidersUpdate {
    pub closed spec fn added_view(&self) -> Seq<u32> {
        self.added@
    }

    pub closed spec fn removed_view(&self) -> Seq<u32> {
        self.removed@
    }

    pub fn new(added: Vec<u32>, removed: Vec<u32>) -> (r: AspaProvidersUpdate)
        ensures
            r.added_view() == added@,
            r.removed_view() == removed@,
    {
        AspaProvidersUpdate { added, removed }
    }

    pub fn added(&self) -> (r: &Vec<u32>)
        ensures
            r@ == self.added_view(),
    {
        &self.added
    }

    pub fn removed(&self) -> (r: &Vec<u32>)
        ensures
            r@ == self.removed_view(),
    {
        &self.removed
    }
}

/// Holds of the providers that `removed` does not name.
pub open spec fn not_removed(removed: Seq<u32>) -> spec_fn(u32) -> bool {
    |p: u32| !removed.contains(p)
}

/// `providers` with each of `added` appended in turn, unless already there.
pub open spec fn add_providers(providers: Seq<u32>, added: Seq<u32>) -> Seq<u32>
    decreases added.len(),
{
    if added.len() == 0 {
        providers
    } else {
        let before = add_providers(providers, added.drop_last());
        if before.contains(added.last()) {
            before
        } else {
            before.push(added.last())
        }
    }
}

/// The providers once an update is applied: those removed leave, then those
/// added that are not yet listed join at the end.
pub open spec fn updated_providers(providers: Seq<u32>, added: Seq<u32>, removed: Seq<u32>) -> Seq<
    u32,
> {
    add_providers(providers.filter(not_removed(removed)), added)
}

impl AspaDefinition {
    pub fn new(customer: AspaCustomer, providers: Vec<u32>) -> (r: AspaDefinition)
        ensures
            r@.customer == customer,
            r@.providers == providers@,
    {
        AspaDefinition { customer, providers }
    }

    pub fn customer(&self) -> (r: AspaCustomer)
        ensures
            r == self@.customer,
    {
        self.customer
    }

    pub fn providers(&self) -> (r: &Vec<u32>)
        ensures
            r@ == self@.providers,
    {
        &self.providers
    }

    /// A copy of this definition.
    pub fn duplicate(&self) -> (r: AspaDefinition)
        ensures
            r@ == self@,
    {
        AspaDefinition { customer: self.customer, providers: self.providers.clone() }
    }

    /// Whether the two definitions have the same customer and the same
    /// providers in the same order.
    pub fn same_as(&self, other: &AspaDefinition) -> (r: bool)
        ensures
            r == (self@ == other@),
    {
        if self.customer != other.customer || self.providers.len() != other.providers.len() {
            return false;
        }
        let mut i: usize = 0;
        while i < self.providers.len()
            invariant
                i <= self.providers@.len(),
                self.providers@.len() == other.providers@.len(),
                self.providers@.take(i as int) == other.providers@.take(i as int),
            decreases self.providers@.len() - i,
        {
            if self.providers[i] != other.providers[i] {
                assert(self@.providers[i as int] != other@.providers[i as int]);
                return false;
            }
            assert(self.providers@.take(i + 1) =~= self.providers@.take(i as int).push(
                self.providers@[i as int],
            ));
            assert(other.providers@.take(i + 1) =~= other.providers@.take(i as int).push(
                other.providers@[i as int],
            ));
            i = i + 1;
        }
        assert(self.providers@.take(i as int) =~= self.providers@);
        assert(other.providers@.take(i as int) =~= other.providers@);
        true
    }

    /// Applies `update` to the providers.
    pub fn apply_update(&mut self, update: &AspaProvidersUpdate)
        ensures
            final(self)@.customer == old(self)@.customer,
            final(self)@.providers == updated_providers(
                old(self)@.providers,
                update.added_view(),
                update.removed_view(),
            ),
    {
        let ghost keep = not_removed(update.removed_view());
        let mut kept: Vec<u32> = Vec::new();
        let mut i: usize = 0;
        while i < self.providers.len()
            invariant
                keep == not_removed(update.removed_view()),
                i <= self.providers@.len(),
                kept@ == self.providers@.take(i as int).filter(keep),
            decreases self.providers@.len() - i,
        {
            let p = self.providers[i];
            if !contains(update.removed(), p) {
                kept.push(p);
            }
            proof {
                assert(self.providers@.take(i + 1) =~= self.providers@.take(i as int).push(p));
                self.providers@.take(i as int).lemma_filter_push(p, keep);
            }
            i = i + 1;
        }
        assert(self.providers@.take(i as int) =~= self.providers@);
        let ghost base = kept@;
        let mut j: usize = 0;
        while j < update.added().len()
            invariant
                j <= update.added_view().len(),
                kept@ == add_providers(base, update.added_view().take(j as int)),
            decreases update.added_view().len() - j,
        {
            let a = update.added()[j];
            assert(update.added_view().take(j + 1).drop_last() =~= update.added_view().take(
                j as int,
            ));
            if !contains(&kept, a) {
                kept.push(a);
            }
            j = j + 1;
        }
        assert(update.added_view().take(j as int) =~= update.added_view());
        self.providers = kept;
    }
}

/// Whether `values` holds `v`.
fn contains(values: &Vec<u32>, v: u32) -> (r: bool)
    ensures
        r == values@.contains(v),
{
    let mut i: usize = 0;
    while i < values.len()
        invariant
            i <= values@.len(),
            forall|j: int| 0 <= j < i ==> values@[j] != v,
        decreases values@.len() - i,
    {
        if values[i] == v {
            assert(values@[i as int] == v);
            return true;
        }
        i = i + 1;
    }
    false
}

//------------ AspaDefinitions -----------------------------------------------

/// No customer has two definitions.
pub open spec fn customers_unique(defs: Seq<AspaDefinitionView>) -> bool {
    forall|i: int, j: int|
        0 <= i < j < defs.len() ==> #[trigger] defs[i].customer != #[trigger] defs[j].customer
}

/// Every definition lists at least one provider.
pub open spec fn providers_present(defs: Seq<AspaDefinitionView>) -> bool {
    forall|i: int| 0 <= i < defs.len() ==> #[trigger] defs[i].providers.len() > 0
}

pub open spec fn has_definition(defs: Seq<AspaDefinitionView>, customer: AspaCustomer) -> bool {
    exists|i: int| 0 <= i < defs.len() && #[trigger] defs[i].customer == customer
}

pub open spec fn definition_index(defs: Seq<AspaDefinitionView>, customer: AspaCustomer) -> int {
    choose|i: int| 0 <= i < defs.len() && #[trigger] defs[i].customer == customer
}

/// The definition for `customer`, if there is one.
pub open spec fn definition_for(defs: Seq<AspaDefinitionView>, customer: AspaCustomer) -> Option<
    AspaDefinitionView,
> {
    if has_definition(defs, customer) {
        Some(defs[definition_index(defs, customer)])
    } else {
        None
    }
}

/// `defs` with `def` in place of the definition for its customer, or else
/// appended.
pub open spec fn definitions_put(defs: Seq<AspaDefinitionView>, def: AspaDefinitionView) -> Seq<
    AspaDefinitionView,
> {
    if has_definition(defs, def.customer) {
        defs.update(definition_index(defs, def.customer), def)
    } else {
        defs.push(def)
    }
}

/// Holds of the definitions for another customer than `customer`.
pub open spec fn other_customer(customer: AspaCustomer) -> spec_fn(AspaDefinitionView) -> bool {
    |d: AspaDefinitionView| d.customer != customer
}

/// `defs` without the definition for `customer`.
pub open spec fn definitions_without(defs: Seq<AspaDefinitionView>, customer: AspaCustomer) -> Seq<
    AspaDefinitionView,
> {
    defs.filter(other_customer(customer))
}

/// The providers of `customer` once `update` is applied to its definition, or
/// to an empty one where it has none.
pub open spec fn providers_after(
    defs: Seq<AspaDefinitionView>,
    customer: AspaCustomer,
    added: Seq<u32>,
    removed: Seq<u32>,
) -> Seq<u32> {
    let current = match definition_for(defs, customer) {
        Some(d) => d.providers,
        None => Seq::empty(),
    };
    updated_providers(current, added, removed)
}

proof fn lemma_definition_index(defs: Seq<AspaDefinitionView>, i: int)
    requires
        customers_unique(defs),
        0 <= i < defs.len(),
    ensures
        has_definition(defs, defs[i].customer),
        definition_index(defs, defs[i].customer) == i,
{
    let k = definition_index(defs, defs[i].customer);
    assert(defs[i].customer == defs[i].customer);
    if k < i {
        assert(defs[k].customer != defs[i].customer);
    } else if k > i {
        assert(defs[i].customer != defs[k].customer);
    }
}

proof fn lemma_filter_definitions(
    defs: Seq<AspaDefinitionView>,
    keep: spec_fn(AspaDefinitionView) -> bool,
)
    requires
        customers_unique(defs),
        providers_present(defs),
    ensures
        customers_unique(defs.filter(keep)),
        providers_present(defs.filter(keep)),
    decreases defs.len(),
{
    reveal(Seq::filter);
    if defs.len() > 0 {
        let rest = defs.drop_last();
        let last = defs.last();
        assert forall|a: int, b: int| 0 <= a < b < rest.len() implies #[trigger] rest[a].customer
            != #[trigger] rest[b].customer by {
            assert(defs[a].customer != defs[b].customer);
        }
        assert forall|a: int| 0 <= a < rest.len() implies #[trigger] rest[a].providers.len() > 0 by {
            assert(defs[a].providers.len() > 0);
        }
        lemma_filter_definitions(rest, keep);
        let f = rest.filter(keep);
        if keep(last) {
            let g = f.push(last);
            assert forall|a: int, b: int| 0 <= a < b < g.len() implies #[trigger] g[a].customer
                != #[trigger] g[b].customer by {
                if b == f.len() {
                    assert(f.contains(f[a]));
                    rest.lemma_filter_contains_rev(keep, f[a]);
                    let k = choose|k: int| 0 <= k < rest.len() && rest[k] == f[a];
                    assert(defs[k].customer != defs[defs.len() - 1].customer);
                } else {
                    assert(f[a].customer != f[b].customer);
                }
            }
            assert forall|a: int| 0 <= a < g.len() implies #[trigger] g[a].providers.len() > 0 by {
                if a < f.len() {
                    assert(f[a].providers.len() > 0);
                } else {
                    assert(defs[defs.len() - 1].providers.len() > 0);
                }
            }
        }
    }
}

/// The ASPA definitions of a CA, at most one for each customer ASN, each with
/// at least one provider. A customer is generally held in a single resource
/// class, but a CA could in principle issue ASPA objects in every resource
/// class that holds it.
pub struct AspaDefinitions {
    attestations: Vec<AspaDefinition>,
}

/// The views of `defs`, in order.
pub open spec fn definition_views(defs: Seq<AspaDefinition>) -> Seq<AspaDefinitionView> {
    defs.map_values(|d: AspaDefinition| d@)
}

impl View for AspaDefinitions {
    type V = Seq<AspaDefinitionView>;

    closed spec fn view(&self) -> Seq<AspaDefinitionView> {
        definition_views(self.attestations@)
    }
}

impl AspaDefinitions {
    /// The invariant: one definition per customer, each with providers.
    pub open spec fn wf(&self) -> bool {
        customers_unique(self@) && providers_present(self@)
    }

    /// No definitions at all.
    pub fn new() -> (r: AspaDefinitions)
        ensures
            r@ == Seq::<AspaDefinitionView>::empty(),
            r.wf(),
    {
        let r = AspaDefinitions { attestations: Vec::new() };
        assert(r@ =~= Seq::<AspaDefinitionView>::empty());
        r
    }

    fn position(&self, customer: AspaCustomer) -> (r: Option<usize>)
        requires
            self.wf(),
        ensures
            r is None <==> !has_definition(self@, customer),
            r matches Some(i) ==> i < self@.len() && self@[i as int].customer == customer
                && definition_index(self@, customer) == i,
    {
        let mut i: usize = 0;
        while i < self.attestations.len()
            invariant
                self.wf(),
                i <= self.attestations@.len(),
                forall|j: int| 0 <= j < i ==> #[trigger] self@[j].customer != customer,
            decreases self.attestations@.len() - i,
        {
            if self.attestations[i].customer() == customer {
                proof {
                    lemma_definition_index(self@, i as int);
                }
                return Some(i);
            }
            i = i + 1;
        }
        None
    }

    /// Adds `aspa_def`, replacing any definition for the same customer.
    pub fn add_or_replace(&mut self, aspa_def: AspaDefinition)
        requires
            old(self).wf(),
            aspa_def@.providers.len() > 0,
        ensures
            final(self).wf(),
            final(self)@ == definitions_put(old(self)@, aspa_def@),
    {
        let ghost defs = self@;
        let ghost def = aspa_def@;
        match self.position(aspa_def.customer()) {
            Some(i) => {
                self.attestations.set(i, aspa_def);
                proof {
                    assert(self@ =~= defs.update(i as int, def));
                    assert forall|a: int, b: int| 0 <= a < b < self@.len() implies #[trigger] self@[a].customer
                        != #[trigger] self@[b].customer by {
                        assert(self@[a].customer == defs[a].customer);
                        assert(self@[b].customer == defs[b].customer);
                        assert(defs[a].customer != defs[b].customer);
                    }
                    assert forall|a: int| 0 <= a < self@.len() implies #[trigger] self@[a].providers.len() > 0 by {
                        if a != i {
                            assert(defs[a].providers.len() > 0);
                        }
                    }
                }
            },
            None => {
                self.attestations.push(aspa_def);
                proof {
                    assert(self@ =~= defs.push(def));
                    assert forall|a: int, b: int| 0 <= a < b < self@.len() implies #[trigger] self@[a].customer
                        != #[trigger] self@[b].customer by {
                        if b < defs.len() {
                            assert(defs[a].customer != defs[b].customer);
                        }
                    }
                    assert forall|a: int| 0 <= a < self@.len() implies #[trigger] self@[a].providers.len() > 0 by {
                        if a < defs.len() {
                            assert(defs[a].providers.len() > 0);
                        }
                    }
                }
            },
        }
    }

    /// Removes the definition for `customer`, if there is one.
    pub fn remove(&mut self, customer: AspaCustomer)
        requires
            old(self).wf(),
        ensures
            final(self).wf(),
            final(self)@ == definitions_without(old(self)@, customer),
            !has_definition(final(self)@, customer),
    {
        let ghost defs = self@;
        let ghost keep = other_customer(customer);
        let mut kept: Vec<AspaDefinition> = Vec::new();
        let mut i: usize = 0;
        while i < self.attestations.len()
            invariant
                self@ == defs,
                keep == other_customer(customer),
                i <= self.attestations@.len(),
                definition_views(kept@) == defs.take(i as int).filter(keep),
            decreases self.attestations@.len() - i,
        {
            let ghost before = kept@;
            assert(defs[i as int] == self.attestations@[i as int]@);
            if self.attestations[i].customer() != customer {
                kept.push(self.attestations[i].duplicate());
                assert(definition_views(kept@) =~= definition_views(before).push(defs[i as int]));
            }
            proof {
                assert(defs.take(i + 1) =~= defs.take(i as int).push(defs[i as int]));
                defs.take(i as int).lemma_filter_push(defs[i as int], keep);
            }
            i = i + 1;
        }
        self.attestations = kept;
        proof {
            assert(defs.take(defs.len() as int) =~= defs);
            lemma_filter_definitions(defs, keep);
            assert forall|j: int| 0 <= j < self@.len() implies #[trigger] self@[j].customer != customer by {
                defs.lemma_filter_pred(keep, j);
            }
        }
    }

    /// Applies `update` to the providers of `customer`, starting from none
    /// where it has no definition yet. A definition left without providers is
    /// removed, or not added.
    pub fn apply_update(&mut self, customer: AspaCustomer, update: &AspaProvidersUpdate)
        requires
            old(self).wf(),
        ensures
            final(self).wf(),
            ({
                let providers = providers_after(
                    old(self)@,
                    customer,
                    update.added_view(),
                    update.removed_view(),
                );
                if providers.len() > 0 {
                    final(self)@ == definitions_put(
                        old(self)@,
                        AspaDefinitionView { customer, providers },
                    )
                } else {
                    final(self)@ == definitions_without(old(self)@, customer)
                }
            }),
            providers_after(old(self)@, customer, update.added_view(), update.removed_view()).len()
                == 0 ==> !has_definition(final(self)@, customer),
    {
        let mut def = match self.position(customer) {
            Some(i) => self.attestations[i].duplicate(),
            None => AspaDefinition::new(customer, Vec::new()),
        };
        assert(def@.providers == match definition_for(self@, customer) {
            Some(d) => d.providers,
            None => Seq::<u32>::empty(),
        });
        def.apply_update(update);
        if def.providers().len() > 0 {
            self.add_or_replace(def);
        } else {
            self.remove(customer);
        }
    }

    /// Copies of all definitions.
    pub fn all(&self) -> (r: Vec<AspaDefinition>)
        ensures
            definition_views(r@) == self@,
    {
        let mut r: Vec<AspaDefinition> = Vec::new();
        let mut i: usize = 0;
        while i < self.attestations.len()
            invariant
                i <= self.attestations@.len(),
                definition_views(r@) == self@.take(i as int),
            decreases self.attestations@.len() - i,
        {
            let ghost before = r@;
            assert(self@[i as int] == self.attestations@[i as int]@);
            r.push(self.attestations[i].duplicate());
            assert(definition_views(r@) =~= definition_views(before).push(self@[i as int]));
            assert(self@.take(i + 1) =~= self@.take(i as int).push(self@[i as int]));
            i = i + 1;
        }
        assert(self@.take(i as int) =~= self@);
        r
    }

    /// The definition for `customer`, if there is one.
    pub fn get(&self, customer: AspaCustomer) -> (r: Option<&AspaDefinition>)
        requires
            self.wf(),
        ensures
            r is Some <==> has_definition(self@, customer),
            r matches Some(d) ==> definition_for(self@, customer) == Some(d@),
    {
        match self.position(customer) {
            Some(i) => Some(&self.attestations[i]),
            None => None,
        }
    }

    /// Whether there is a definition for `customer`.
    pub fn has(&self, customer: AspaCustomer) -> (r: bool)
        requires
            self.wf(),
        ensures
            r == has_definition(self@, customer),
    {
        self.position(customer).is_some()
    }

    pub fn len(&self) -> (r: usize)
        ensures
            r == self@.len(),
    {
        self.attestations.len()
    }

    pub fn is_empty(&self) -> (r: bool)
        ensures
            r == (self@.len() == 0),
    {
        self.attestations.len() == 0
    }
}

impl Default for AspaDefinitions {
    fn default() -> (r: Self)
        ensures
            r@ == Seq::<AspaDefinitionView>::empty(),
            r.wf(),
    {
        AspaDefinitions::new()
    }
}

//------------ Certified key, validity and the signer -----------------------

/// A range of ASNs, both ends included.
pub struct AsRange {
    pub min: u32,
    pub max: u32,
}

/// Whether one of `ranges` holds `asn`.
pub open spec fn holds_asn(ranges: Seq<AsRange>, asn: u32) -> bool {
    exists|i: int| 0 <= i < ranges.len() && #[trigger] ranges[i].min <= asn && asn <= ranges[i].max
}

/// The key of a resource class, as far as ASPA objects need it: the
/// identifier the signer knows it by, the ASNs its incoming certificate
/// holds, and what that certificate says of where objects are published and
/// who issued them.
pub struct CertifiedKey {
    key_id: String,
    asn_resources: Vec<AsRange>,
    crl_uri: String,
    ca_issuer_uri: String,
    signed_object_base: String,
    subject: String,
}

pub struct CertifiedKeyView {
    pub key_id: Seq<char>,
    pub resources: Seq<AsRange>,
    pub crl_uri: Seq<char>,
    pub ca_issuer_uri: Seq<char>,
    pub signed_object_base: Seq<char>,
    pub subject: Seq<char>,
}

impl View for CertifiedKey {
    type V = CertifiedKeyView;

    closed spec fn view(&self) -> CertifiedKeyView {
        CertifiedKeyView {
            key_id: self.key_id@,
            resources: self.asn_resources@,
            crl_uri: self.crl_uri@,
            ca_issuer_uri: self.ca_issuer_uri@,
            signed_object_base: self.signed_object_base@,
            subject: self.subject@,
        }
    }
}

impl CertifiedKey {
    pub open spec fn resources(&self) -> Seq<AsRange> {
        self@.resources
    }

    /// A key known as `key_id`, whose incoming certificate holds
    /// `asn_resources`, names its CRL at `crl_uri` and its own location at
    /// `ca_issuer_uri`, publishes its objects under `signed_object_base` and
    /// has the subject `subject`.
    pub fn new(
        key_id: String,
        asn_resources: Vec<AsRange>,
        crl_uri: String,
        ca_issuer_uri: String,
        signed_object_base: String,
        subject: String,
    ) -> (r: CertifiedKey)
        ensures
            r@.key_id == key_id@,
            r@.resources == asn_resources@,
            r@.crl_uri == crl_uri@,
            r@.ca_issuer_uri == ca_issuer_uri@,
            r@.signed_object_base == signed_object_base@,
            r@.subject == subject@,
    {
        CertifiedKey { key_id, asn_resources, crl_uri, ca_issuer_uri, signed_object_base, subject }
    }

    pub fn key_id(&self) -> (r: &String)
        ensures
            r@ == self@.key_id,
    {
        &self.key_id
    }

    /// Whether the certificate of this key holds `asn`.
    pub fn contains_asn(&self, asn: u32) -> (r: bool)
        ensures
            r == holds_asn(self.resources(), asn),
    {
        let mut i: usize = 0;
        while i < self.asn_resources.len()
            invariant
                i <= self.asn_resources@.len(),
                forall|j: int|
                    0 <= j < i ==> !(#[trigger] self.asn_resources@[j].min <= asn
                        && asn <= self.asn_resources@[j].max),
            decreases self.asn_resources@.len() - i,
        {
            let range = &self.asn_resources[i];
            if range.min <= asn && asn <= range.max {
                return true;
            }
            i = i + 1;
        }
        false
    }

    /// Where the object named `name` is published: the base URI followed by
    /// the name.
    pub fn uri_for_name(&self, name: &str) -> (r: String)
        ensures
            r@ == self@.signed_object_base + name@,
    {
        self.signed_object_base.clone().concat(name)
    }
}

/// The validity of an object: seconds since the Unix epoch, both ends
/// included.
#[derive(Clone, Copy)]
pub struct Validity {
    pub not_before: i64,
    pub not_after: i64,
}

/// The decimal digits of `n`, without sign or leading zeros.
pub open spec fn decimal(n: nat) -> Seq<char>
    decreases n,
{
    if n < 10 {
        seq![digit_char(n)]
    } else {
        decimal(n / 10).push(digit_char(n % 10))
    }
}

pub open spec fn digit_char(d: nat) -> char {
    if d == 0 { '0' } else if d == 1 { '1' } else if d == 2 { '2' } else if d == 3 { '3' } else if d == 4 {
        '4'
    } else if d == 5 { '5' } else if d == 6 { '6' } else if d == 7 { '7' } else if d == 8 { '8' } else {
        '9'
    }
}

/// Relies on `u32::to_string` (its `Display`): the decimal digits, without
/// sign or leading zeros.
#[verifier::external_body]
fn decimal_text(n: u32) -> (r: String)
    ensures
        r@ == decimal(n as nat),
{
    n.to_string()
}

/// The name of the object for `customer`: `AS`, its number, `.asa`.
pub open spec fn object_name(customer: AspaCustomer) -> Seq<char> {
    "AS"@ + decimal(customer as nat) + ".asa"@
}

/// The name of the object for `customer`.
pub fn aspa_object_name(customer: AspaCustomer) -> (r: String)
    ensures
        r@ == object_name(customer),
{
    String::from_str("AS").concat(decimal_text(customer).as_str()).concat(".asa")
}

/// What the signer is asked to sign for one ASPA object: the attestation,
/// and the fields of the signed object around it.
pub struct AspaObjectRequest {
    pub customer: AspaCustomer,
    pub providers: Vec<u32>,
    pub serial: Vec<u8>,
    pub validity: Validity,
    pub crl_uri: String,
    pub ca_issuer_uri: String,
    pub signed_object_uri: String,
    pub issuer: String,
    pub signing_time: i64,
}

pub struct AspaObjectRequestView {
    pub customer: AspaCustomer,
    pub providers: Seq<u32>,
    pub serial: Seq<u8>,
    pub validity: Validity,
    pub crl_uri: Seq<char>,
    pub ca_issuer_uri: Seq<char>,
    pub signed_object_uri: Seq<char>,
    pub issuer: Seq<char>,
    pub signing_time: i64,
}

impl View for AspaObjectRequest {
    type V = AspaObjectRequestView;

    open spec fn view(&self) -> AspaObjectRequestView {
        AspaObjectRequestView {
            customer: self.customer,
            providers: self.providers@,
            serial: self.serial@,
            validity: self.validity,
            crl_uri: self.crl_uri@,
            ca_issuer_uri: self.ca_issuer_uri@,
            signed_object_uri: self.signed_object_uri@,
            issuer: self.issuer@,
            signing_time: self.signing_time,
        }
    }
}

/// The request for the object of `def` under `key`: CRL, CA issuer and
/// issuer subject come from the incoming certificate, the URI from its base
/// and the name of the object; only the serial is the signer's.
pub open spec fn aspa_request(
    def: AspaDefinitionView,
    key: CertifiedKeyView,
    serial: Seq<u8>,
    validity: Validity,
    signing_time: i64,
) -> AspaObjectRequestView {
    AspaObjectRequestView {
        customer: def.customer,
        providers: def.providers,
        serial,
        validity,
        crl_uri: key.crl_uri,
        ca_issuer_uri: key.ca_issuer_uri,
        signed_object_uri: key.signed_object_base + object_name(def.customer),
        issuer: key.subject,
        signing_time,
    }
}

/// A signed ASPA object: the request it was made from, and its DER bytes.
pub struct SignedAspa {
    pub request: AspaObjectRequest,
    pub content: Vec<u8>,
}

/// The signing service of a CA: it hands out serial numbers and signs
/// requests with a key.
pub trait AspaSigner {
    /// Holds when `content` may be what signing `request` with the key known
    /// as `key_id` gives. A signer that states nothing allows any outcome.
    open spec fn signs(&self, request: AspaObjectRequestView, key_id: Seq<char>, content: Seq<u8>) -> bool {
        true
    }

    /// Holds when this signer may fail. A signer that states nothing may.
    open spec fn may_fail(&self) -> bool {
        true
    }

    fn random_serial(&self) -> (r: Result<Vec<u8>, Error>)
        ensures
            r is Err ==> self.may_fail(),
    ;

    fn sign_aspa(&self, request: &AspaObjectRequest, key_id: &String) -> (r: Result<Vec<u8>, Error>)
        ensures
            r matches Ok(c) ==> self.signs(request@, key_id@, c@),
            r is Err ==> self.may_fail(),
    ;
}

/// Relies on `rpki::repository::aspa::AspaBuilder::new`, which refuses a
/// provider list that names an ASN twice and accepts any other.
#[verifier::external_body]
fn aspa_builder_accepts(customer: AspaCustomer, providers: &Vec<u32>) -> (r: bool)
    ensures
        r == providers@.no_duplicates(),
{
    let providers = providers.iter().map(|p| ProviderAs::new(Asn::from_u32(*p))).collect();
    AspaBuilder::new(Asn::from_u32(customer), providers).is_ok()
}

/// Builds and signs the ASPA object for `aspa_def` under `certified_key`,
/// valid for `validity` and signed at `signing_time`. A definition that
/// lists a provider twice cannot be attested and is refused before the
/// signer is asked.
pub fn make_aspa_object<S: AspaSigner>(
    aspa_def: &AspaDefinition,
    certified_key: &CertifiedKey,
    validity: &Validity,
    signing_time: i64,
    signer: &S,
) -> (r: Result<SignedAspa, Error>)
    ensures
        !aspa_def@.providers.no_duplicates() ==> r is Err,
        r is Err ==> !aspa_def@.providers.no_duplicates() || signer.may_fail(),
        r matches Ok(a) ==> a.request@ == aspa_request(
            aspa_def@,
            certified_key@,
            a.request@.serial,
            *validity,
            signing_time,
        ),
        r matches Ok(a) ==> signer.signs(a.request@, certified_key@.key_id, a.content@),
{
    if !aspa_builder_accepts(aspa_def.customer(), aspa_def.providers()) {
        return Err(Error::Custom("Cannot use aspa config: duplicate provider ASN".to_string()));
    }
    let serial = signer.random_serial()?;
    let request = AspaObjectRequest {
        customer: aspa_def.customer(),
        providers: aspa_def.providers().clone(),
        serial,
        validity: *validity,
        crl_uri: certified_key.crl_uri.clone(),
        ca_issuer_uri: certified_key.ca_issuer_uri.clone(),
        signed_object_uri: certified_key.uri_for_name(aspa_object_name(aspa_def.customer()).as_str()),
        issuer: certified_key.subject.clone(),
        signing_time,
    };
    let content = signer.sign_aspa(&request, certified_key.key_id())?;
    Ok(SignedAspa { request, content })
}

/// The SHA-256 digest of an object's bytes, as published.
pub uninterp spec fn hash_of(content: Seq<u8>) -> Seq<u8>;

/// Relies on `rpki::rrdp::Hash::from_data`: the SHA-256 digest of the bytes,
/// which depends on them alone.
#[verifier::external_body]
fn object_hash(content: &[u8]) -> (r: Vec<u8>)
    ensures
        r@ == hash_of(content@),
{
    rpki::rrdp::Hash::from_data(content).as_slice().to_vec()
}

//------------ AspaInfo ------------------------------------------------------

/// A published ASPA object: the definition it was made from, its validity,
/// serial number, publication URI, base64 content and hash.
pub struct AspaInfo {
    definition: AspaDefinition,
    validity: Validity,
    serial: Vec<u8>,
    uri: String,
    base64: String,
    hash: Vec<u8>,
}

pub struct AspaInfoView {
    pub definition: AspaDefinitionView,
    pub validity: Validity,
    pub serial: Seq<u8>,
    pub uri: Seq<char>,
    pub base64: Seq<char>,
    pub hash: Seq<u8>,
}

impl View for AspaInfo {
    type V = AspaInfoView;

    closed spec fn view(&self) -> AspaInfoView {
        AspaInfoView {
            definition: self.definition@,
            validity: self.validity,
            serial: self.serial@,
            uri: self.uri@,
            base64: self.base64@,
            hash: self.hash@,
        }
    }
}

impl AspaInfo {
    /// The record of the object `aspa` signed for `definition`: validity,
    /// serial and URI as requested, the content in base64 and its hash.
    pub fn new(definition: AspaDefinition, aspa: SignedAspa) -> (r: AspaInfo)
        ensures
            r@.definition == definition@,
            r@.validity == aspa.request.validity,
            r@.serial == aspa.request.serial@,
            r@.uri == aspa.request.signed_object_uri@,
            r@.base64 == base64_encoding(aspa.content@),
            r@.hash == hash_of(aspa.content@),
    {
        let base64 = encode_base64(aspa.content.as_slice());
        let hash = object_hash(aspa.content.as_slice());
        AspaInfo {
            definition,
            validity: aspa.request.validity,
            serial: aspa.request.serial,
            uri: aspa.request.signed_object_uri,
            base64,
            hash,
        }
    }

    pub fn new_aspa(definition: AspaDefinition, aspa: SignedAspa) -> (r: AspaInfo)
        ensures
            r@.definition == definition@,
            r@.validity == aspa.request.validity,
            r@.serial == aspa.request.serial@,
            r@.uri == aspa.request.signed_object_uri@,
            r@.base64 == base64_encoding(aspa.content@),
            r@.hash == hash_of(aspa.content@),
    {
        AspaInfo::new(definition, aspa)
    }

    pub fn definition(&self) -> (r: &AspaDefinition)
        ensures
            r@ == self@.definition,
    {
        &self.definition
    }

    pub fn customer(&self) -> (r: AspaCustomer)
        ensures
            r == self@.definition.customer,
    {
        self.definition.customer()
    }

    /// The end of the validity of the object.
    pub fn expires(&self) -> (r: i64)
        ensures
            r == self@.validity.not_after,
    {
        self.validity.not_after
    }

    pub fn serial(&self) -> (r: &Vec<u8>)
        ensures
            r@ == self@.serial,
    {
        &self.serial
    }

    pub fn uri(&self) -> (r: &String)
        ensures
            r@ == self@.uri,
    {
        &self.uri
    }

    pub fn base64(&self) -> (r: &String)
        ensures
            r@ == self@.base64,
    {
        &self.base64
    }

    pub fn hash(&self) -> (r: &Vec<u8>)
        ensures
            r@ == self@.hash,
    {
        &self.hash
    }

    fn duplicate(&self) -> (r: AspaInfo)
        ensures
            r@ == self@,
    {
        AspaInfo {
            definition: self.definition.duplicate(),
            validity: self.validity,
            serial: self.serial.clone(),
            uri: self.uri.clone(),
            base64: self.base64.clone(),
            hash: self.hash.clone(),
        }
    }
}

//------------ AspaObjectsUpdates --------------------------------------------

/// The views of `infos`, in order.
pub open spec fn info_views(infos: Seq<AspaInfo>) -> Seq<AspaInfoView> {
    infos.map_values(|i: AspaInfo| i@)
}

/// The definitions that `infos` were made from, in order.
pub open spec fn info_definitions(infos: Seq<AspaInfoView>) -> Seq<AspaDefinitionView> {
    infos.map_values(|i: AspaInfoView| i.definition)
}

/// A batch of changes to the ASPA objects of a resource class: objects that
/// are new or made again, and customers whose objects are withdrawn.
pub struct AspaObjectsUpdates {
    updated: Vec<AspaInfo>,
    removed: Vec<AspaCustomer>,
}

impl AspaObjectsUpdates {
    pub closed spec fn updated_view(&self) -> Seq<AspaInfoView> {
        info_views(self.updated@)
    }

    pub closed spec fn removed_view(&self) -> Seq<AspaCustomer> {
        self.removed@
    }

    /// An empty batch.
    pub fn new() -> (r: AspaObjectsUpdates)
        ensures
            r.updated_view() == Seq::<AspaInfoView>::empty(),
            r.removed_view() == Seq::<AspaCustomer>::empty(),
    {
        let r = AspaObjectsUpdates { updated: Vec::new(), removed: Vec::new() };
        assert(r.updated_view() =~= Seq::<AspaInfoView>::empty());
        r
    }

    pub fn add_updated(&mut self, info: AspaInfo)
        ensures
            final(self).updated_view() == old(self).updated_view().push(info@),
            final(self).removed_view() == old(self).removed_view(),
    {
        self.updated.push(info);
        assert(final(self).updated_view() =~= old(self).updated_view().push(info@));
    }

    pub fn add_removed(&mut self, customer: AspaCustomer)
        ensures
            final(self).updated_view() == old(self).updated_view(),
            final(self).removed_view() == old(self).removed_view().push(customer),
    {
        self.removed.push(customer);
    }

    pub fn updated(&self) -> (r: &Vec<AspaInfo>)
        ensures
            info_views(r@) == self.updated_view(),
    {
        &self.updated
    }

    pub fn removed(&self) -> (r: &Vec<AspaCustomer>)
        ensures
            r@ == self.removed_view(),
    {
        &self.removed
    }

    pub fn is_empty(&self) -> (r: bool)
        ensures
            r == (self.updated_view().len() == 0 && self.removed_view().len() == 0),
    {
        self.updated.len() == 0 && self.removed.len() == 0
    }

    /// The objects and the withdrawn customers.
    pub fn unpack(self) -> (r: (Vec<AspaInfo>, Vec<AspaCustomer>))
        ensures
            info_views(r.0@) == self.updated_view(),
            r.1@ == self.removed_view(),
    {
        (self.updated, self.removed)
    }
}

//------------ AspaObjects ---------------------------------------------------

/// No customer has two objects.
pub open spec fn object_customers_unique(objects: Seq<AspaInfoView>) -> bool {
    forall|i: int, j: int|
        0 <= i < j < objects.len() ==> #[trigger] objects[i].definition.customer
            != #[trigger] objects[j].definition.customer
}

pub open spec fn has_object(objects: Seq<AspaInfoView>, customer: AspaCustomer) -> bool {
    exists|i: int| 0 <= i < objects.len() && #[trigger] objects[i].definition.customer == customer
}

pub open spec fn object_index(objects: Seq<AspaInfoView>, customer: AspaCustomer) -> int {
    choose|i: int| 0 <= i < objects.len() && #[trigger] objects[i].definition.customer == customer
}

/// The object for `customer`, if there is one.
pub open spec fn object_for(objects: Seq<AspaInfoView>, customer: AspaCustomer) -> Option<
    AspaInfoView,
> {
    if has_object(objects, customer) {
        Some(objects[object_index(objects, customer)])
    } else {
        None
    }
}

/// `objects` with `info` in place of the object for its customer, or else
/// appended.
pub open spec fn objects_put(objects: Seq<AspaInfoView>, info: AspaInfoView) -> Seq<AspaInfoView> {
    if has_object(objects, info.definition.customer) {
        objects.update(object_index(objects, info.definition.customer), info)
    } else {
        objects.push(info)
    }
}

/// Holds of the objects for another customer than `customer`.
pub open spec fn other_object(customer: AspaCustomer) -> spec_fn(AspaInfoView) -> bool {
    |o: AspaInfoView| o.definition.customer != customer
}

/// `objects` once each of `infos` is put in turn.
pub open spec fn objects_put_all(objects: Seq<AspaInfoView>, infos: Seq<AspaInfoView>) -> Seq<
    AspaInfoView,
>
    decreases infos.len(),
{
    if infos.len() == 0 {
        objects
    } else {
        objects_put(objects_put_all(objects, infos.drop_last()), infos.last())
    }
}

/// `objects` without those of the customers in `customers`.
pub open spec fn objects_remove_all(objects: Seq<AspaInfoView>, customers: Seq<AspaCustomer>) -> Seq<
    AspaInfoView,
>
    decreases customers.len(),
{
    if customers.len() == 0 {
        objects
    } else {
        objects_remove_all(objects, customers.drop_last()).filter(other_object(customers.last()))
    }
}

/// Whether `info` is an object made for `def` under `key`, valid for
/// `validity`, signed at `signing_time` by `signer`: its content is what the
/// signer gave for the request built from them.
pub open spec fn made_for<S: AspaSigner>(
    info: AspaInfoView,
    def: AspaDefinitionView,
    key: CertifiedKeyView,
    validity: Validity,
    signing_time: i64,
    signer: S,
) -> bool {
    &&& info.definition == def
    &&& info.validity == validity
    &&& info.uri == key.signed_object_base + object_name(def.customer)
    &&& exists|content: Seq<u8>|
        signer.signs(aspa_request(def, key, info.serial, validity, signing_time), key.key_id, content)
            && info.base64 == base64_encoding(content) && info.hash == hash_of(content)
}

/// Whether a definition needs a new object: there is none for its customer,
/// or the one there was made from another definition.
pub open spec fn needs_issue(objects: Seq<AspaInfoView>, def: AspaDefinitionView) -> bool {
    match object_for(objects, def.customer) {
        None => true,
        Some(o) => o.definition != def,
    }
}

/// Holds of the definitions that get a new object: their customer is held by
/// the key, and they need one.
pub open spec fn to_issue(objects: Seq<AspaInfoView>, resources: Seq<AsRange>) -> spec_fn(
    AspaDefinitionView,
) -> bool {
    |d: AspaDefinitionView| holds_asn(resources, d.customer) && needs_issue(objects, d)
}

/// Holds of the objects that are withdrawn: their customer has no definition
/// any more, or is no longer held by the key.
pub open spec fn to_withdraw(defs: Seq<AspaDefinitionView>, resources: Seq<AsRange>) -> spec_fn(
    AspaInfoView,
) -> bool {
    |o: AspaInfoView|
        !has_definition(defs, o.definition.customer) || !holds_asn(resources, o.definition.customer)
}

/// The customers of `objects`, in order.
pub open spec fn object_customers(objects: Seq<AspaInfoView>) -> Seq<AspaCustomer> {
    objects.map_values(|o: AspaInfoView| o.definition.customer)
}

/// The definitions that [`AspaObjects::update`] issues objects for.
pub open spec fn issued_by_update(
    objects: Seq<AspaInfoView>,
    defs: Seq<AspaDefinitionView>,
    resources: Seq<AsRange>,
) -> Seq<AspaDefinitionView> {
    defs.filter(to_issue(objects, resources))
}

/// The customers whose objects [`AspaObjects::update`] withdraws.
pub open spec fn withdrawn_by_update(
    objects: Seq<AspaInfoView>,
    defs: Seq<AspaDefinitionView>,
    resources: Seq<AsRange>,
) -> Seq<AspaCustomer> {
    object_customers(objects.filter(to_withdraw(defs, resources)))
}

/// Holds of the objects that expire before `threshold`, or of all where
/// there is none.
pub open spec fn due_for_renewal(threshold: Option<i64>) -> spec_fn(AspaInfoView) -> bool {
    |o: AspaInfoView|
        match threshold {
            None => true,
            Some(t) => o.validity.not_after < t,
        }
}

proof fn lemma_object_index(objects: Seq<AspaInfoView>, i: int)
    requires
        object_customers_unique(objects),
        0 <= i < objects.len(),
    ensures
        has_object(objects, objects[i].definition.customer),
        object_index(objects, objects[i].definition.customer) == i,
{
    let k = object_index(objects, objects[i].definition.customer);
    assert(objects[i].definition.customer == objects[i].definition.customer);
    if k < i {
        assert(objects[k].definition.customer != objects[i].definition.customer);
    } else if k > i {
        assert(objects[i].definition.customer != objects[k].definition.customer);
    }
}

proof fn lemma_filter_objects(objects: Seq<AspaInfoView>, keep: spec_fn(AspaInfoView) -> bool)
    requires
        object_customers_unique(objects),
    ensures
        object_customers_unique(objects.filter(keep)),
    decreases objects.len(),
{
    reveal(Seq::filter);
    if objects.len() > 0 {
        let rest = objects.drop_last();
        let last = objects.last();
        assert forall|a: int, b: int| 0 <= a < b < rest.len() implies #[trigger] rest[a].definition.customer
            != #[trigger] rest[b].definition.customer by {
            assert(objects[a].definition.customer != objects[b].definition.customer);
        }
        lemma_filter_objects(rest, keep);
        let f = rest.filter(keep);
        if keep(last) {
            let g = f.push(last);
            assert forall|a: int, b: int| 0 <= a < b < g.len() implies #[trigger] g[a].definition.customer
                != #[trigger] g[b].definition.customer by {
                if b == f.len() {
                    assert(f.contains(f[a]));
                    rest.lemma_filter_contains_rev(keep, f[a]);
                    let k = choose|k: int| 0 <= k < rest.len() && rest[k] == f[a];
                    assert(objects[k].definition.customer != objects[objects.len() - 1].definition.customer);
                } else {
                    assert(f[a].definition.customer != f[b].definition.customer);
                }
            }
        }
    }
}

/// The ASPA objects held by one resource class of a CA, at most one for each
/// customer ASN.
pub struct AspaObjects {
    objects: Vec<AspaInfo>,
}

impl View for AspaObjects {
    type V = Seq<AspaInfoView>;

    closed spec fn view(&self) -> Seq<AspaInfoView> {
        info_views(self.objects@)
    }
}

impl AspaObjects {
    /// The invariant: one object per customer.
    pub open spec fn wf(&self) -> bool {
        object_customers_unique(self@)
    }

    /// No objects at all.
    pub fn new() -> (r: AspaObjects)
        ensures
            r@ == Seq::<AspaInfoView>::empty(),
            r.wf(),
    {
        let r = AspaObjects { objects: Vec::new() };
        assert(r@ =~= Seq::<AspaInfoView>::empty());
        r
    }

    fn position(&self, customer: AspaCustomer) -> (r: Option<usize>)
        requires
            self.wf(),
        ensures
            r is None <==> !has_object(self@, customer),
            r matches Some(i) ==> i < self@.len() && self@[i as int].definition.customer == customer
                && object_index(self@, customer) == i,
    {
        let mut i: usize = 0;
        while i < self.objects.len()
            invariant
                self.wf(),
                i <= self.objects@.len(),
                forall|j: int| 0 <= j < i ==> #[trigger] self@[j].definition.customer != customer,
            decreases self.objects@.len() - i,
        {
            if self.objects[i].customer() == customer {
                proof {
                    lemma_object_index(self@, i as int);
                }
                return Some(i);
            }
            i = i + 1;
        }
        None
    }

    /// Makes the object for `aspa_def` under `certified_key`, valid for
    /// `validity` and signed at `signing_time`.
    pub fn make_aspa<S: AspaSigner>(
        &self,
        aspa_def: AspaDefinition,
        certified_key: &CertifiedKey,
        validity: &Validity,
        signing_time: i64,
        signer: &S,
    ) -> (r: Result<AspaInfo, Error>)
        ensures
            r matches Ok(info) ==> made_for(info@, aspa_def@, certified_key@, *validity, signing_time, *signer),
            !aspa_def@.providers.no_duplicates() ==> r is Err,
            r is Err ==> !aspa_def@.providers.no_duplicates() || signer.may_fail(),
    {
        let aspa = make_aspa_object(&aspa_def, certified_key, validity, signing_time, signer)?;
        let ghost content = aspa.content@;
        let info = AspaInfo::new_aspa(aspa_def, aspa);
        assert(info@.base64 == base64_encoding(content) && info@.hash == hash_of(content));
        Ok(info)
    }

    /// Issues new objects where the definitions call for them, and withdraws
    /// those whose customer lost its definition or is no longer held by the
    /// key. `all_aspa_defs` holds the definitions of the whole CA, not only
    /// those relevant to this resource class. A failure to make one object
    /// fails the whole batch.
    pub fn update<S: AspaSigner>(
        &self,
        all_aspa_defs: &AspaDefinitions,
        certified_key: &CertifiedKey,
        validity: &Validity,
        signing_time: i64,
        signer: &S,
    ) -> (r: Result<AspaObjectsUpdates, Error>)
        requires
            self.wf(),
            all_aspa_defs.wf(),
        ensures
            r matches Ok(u) ==> forall|k: int|
                0 <= k < u.updated_view().len() ==> made_for(
                    #[trigger] u.updated_view()[k],
                    u.updated_view()[k].definition,
                    certified_key@,
                    *validity,
                    signing_time,
                    *signer,
                ),
            r is Err ==> signer.may_fail() || exists|d: AspaDefinitionView|
                issued_by_update(self@, all_aspa_defs@, certified_key.resources()).contains(d)
                    && !d.providers.no_duplicates(),
            r matches Ok(u) ==> info_definitions(u.updated_view()) == issued_by_update(
                self@,
                all_aspa_defs@,
                certified_key.resources(),
            ),
            r matches Ok(u) ==> u.removed_view() == withdrawn_by_update(
                self@,
                all_aspa_defs@,
                certified_key.resources(),
            ),
            r is Err ==> issued_by_update(self@, all_aspa_defs@, certified_key.resources()).len() > 0,
    {
        let mut object_updates = AspaObjectsUpdates::new();
        let defs = all_aspa_defs.all();
        let ghost issue = to_issue(self@, certified_key.resources());
        let mut i: usize = 0;
        while i < defs.len()
            invariant
                self.wf(),
                issue == to_issue(self@, certified_key.resources()),
                definition_views(defs@) == all_aspa_defs@,
                i <= defs@.len(),
                info_definitions(object_updates.updated_view()) == all_aspa_defs@.take(i as int).filter(issue),
                object_updates.removed_view() == Seq::<AspaCustomer>::empty(),
                forall|k: int|
                    0 <= k < object_updates.updated_view().len() ==> made_for(
                        #[trigger] object_updates.updated_view()[k],
                        object_updates.updated_view()[k].definition,
                        certified_key@,
                        *validity,
                        signing_time,
                        *signer,
                    ),
            decreases defs@.len() - i,
        {
            let relevant_aspa = &defs[i];
            let ghost d = all_aspa_defs@[i as int];
            assert(relevant_aspa@ == d);
            let ghost before = object_updates.updated_view();
            if certified_key.contains_asn(relevant_aspa.customer()) {
                let need_to_issue = match self.position(relevant_aspa.customer()) {
                    Some(k) => !self.objects[k].definition().same_as(relevant_aspa),
                    None => true,
                };
                if need_to_issue {
                    proof {
                        all_aspa_defs@.lemma_filter_contains(issue, i as int);
                        assert(issued_by_update(self@, all_aspa_defs@, certified_key.resources()).contains(d));
                    }
                    let aspa_info = self.make_aspa(
                        relevant_aspa.duplicate(),
                        certified_key,
                        validity,
                        signing_time,
                        signer,
                    )?;
                    object_updates.add_updated(aspa_info);
                    assert(info_definitions(object_updates.updated_view()) =~= info_definitions(
                        before,
                    ).push(d));
                }
            }
            proof {
                assert(all_aspa_defs@.take(i + 1) =~= all_aspa_defs@.take(i as int).push(d));
                all_aspa_defs@.take(i as int).lemma_filter_push(d, issue);
            }
            i = i + 1;
        }
        assert(all_aspa_defs@.take(i as int) =~= all_aspa_defs@);
        let ghost withdraw = to_withdraw(all_aspa_defs@, certified_key.resources());
        let mut j: usize = 0;
        while j < self.objects.len()
            invariant
                self.wf(),
                all_aspa_defs.wf(),
                withdraw == to_withdraw(all_aspa_defs@, certified_key.resources()),
                j <= self.objects@.len(),
                info_definitions(object_updates.updated_view()) == issued_by_update(
                    self@,
                    all_aspa_defs@,
                    certified_key.resources(),
                ),
                object_updates.removed_view() == object_customers(self@.take(j as int).filter(withdraw)),
                forall|k: int|
                    0 <= k < object_updates.updated_view().len() ==> made_for(
                        #[trigger] object_updates.updated_view()[k],
                        object_updates.updated_view()[k].definition,
                        certified_key@,
                        *validity,
                        signing_time,
                        *signer,
                    ),
            decreases self.objects@.len() - j,
        {
            let customer = self.objects[j].customer();
            let ghost o = self@[j as int];
            let ghost before = self@.take(j as int).filter(withdraw);
            assert(o.definition.customer == customer);
            if !all_aspa_defs.has(customer) || !certified_key.contains_asn(customer) {
                object_updates.add_removed(customer);
            }
            proof {
                assert(self@.take(j + 1) =~= self@.take(j as int).push(o));
                self@.take(j as int).lemma_filter_push(o, withdraw);
                assert(object_customers(before.push(o)) =~= object_customers(before).push(customer));
            }
            j = j + 1;
        }
        assert(self@.take(j as int) =~= self@);
        Ok(object_updates)
    }

    /// Makes again the objects that expire before `renew_threshold`, or all of
    /// them where no threshold is given. Withdraws nothing. A failure to make
    /// one object fails the whole batch.
    pub fn renew<S: AspaSigner>(
        &self,
        certified_key: &CertifiedKey,
        renew_threshold: Option<i64>,
        validity: &Validity,
        signing_time: i64,
        signer: &S,
    ) -> (r: Result<AspaObjectsUpdates, Error>)
        ensures
            r matches Ok(u) ==> forall|k: int|
                0 <= k < u.updated_view().len() ==> made_for(
                    #[trigger] u.updated_view()[k],
                    u.updated_view()[k].definition,
                    certified_key@,
                    *validity,
                    signing_time,
                    *signer,
                ),
            r is Err ==> signer.may_fail() || exists|k: int|
                0 <= k < self@.len() && due_for_renewal(renew_threshold)(#[trigger] self@[k])
                    && !self@[k].definition.providers.no_duplicates(),
            r matches Ok(u) ==> info_definitions(u.updated_view()) == info_definitions(
                self@.filter(due_for_renewal(renew_threshold)),
            ),
            r matches Ok(u) ==> u.removed_view() == Seq::<AspaCustomer>::empty(),
            r is Err ==> self@.filter(due_for_renewal(renew_threshold)).len() > 0,
    {
        let mut updates = AspaObjectsUpdates::new();
        let ghost due = due_for_renewal(renew_threshold);
        let mut i: usize = 0;
        while i < self.objects.len()
            invariant
                due == due_for_renewal(renew_threshold),
                i <= self.objects@.len(),
                info_definitions(updates.updated_view()) == info_definitions(self@.take(i as int).filter(due)),
                updates.removed_view() == Seq::<AspaCustomer>::empty(),
                forall|k: int|
                    0 <= k < updates.updated_view().len() ==> made_for(
                        #[trigger] updates.updated_view()[k],
                        updates.updated_view()[k].definition,
                        certified_key@,
                        *validity,
                        signing_time,
                        *signer,
                    ),
            decreases self.objects@.len() - i,
        {
            let aspa = &self.objects[i];
            let ghost o = self@[i as int];
            let ghost before = self@.take(i as int).filter(due);
            let ghost before_updates = updates.updated_view();
            assert(aspa@ == o);
            let renew = match renew_threshold {
                Some(threshold) => aspa.expires() < threshold,
                None => true,
            };
            if renew {
                proof {
                    self@.lemma_filter_contains(due, i as int);
                }
                let new_aspa = self.make_aspa(aspa.definition().duplicate(), certified_key, validity, signing_time, signer)?;
                updates.add_updated(new_aspa);
                assert(info_definitions(updates.updated_view()) =~= info_definitions(before_updates).push(o.definition));
                assert(info_definitions(before.push(o)) =~= info_definitions(before).push(o.definition));
            }
            proof {
                assert(self@.take(i + 1) =~= self@.take(i as int).push(o));
                self@.take(i as int).lemma_filter_push(o, due);
            }
            i = i + 1;
        }
        assert(self@.take(i as int) =~= self@);
        Ok(updates)
    }

    fn put(&mut self, info: AspaInfo)
        requires
            old(self).wf(),
        ensures
            final(self).wf(),
            final(self)@ == objects_put(old(self)@, info@),
    {
        let ghost objects = self@;
        let ghost v = info@;
        match self.position(info.customer()) {
            Some(i) => {
                self.objects.set(i, info);
                proof {
                    assert(self@ =~= objects.update(i as int, v));
                    assert forall|a: int, b: int| 0 <= a < b < self@.len() implies #[trigger] self@[a].definition.customer
                        != #[trigger] self@[b].definition.customer by {
                        assert(self@[a].definition.customer == objects[a].definition.customer);
                        assert(self@[b].definition.customer == objects[b].definition.customer);
                        assert(objects[a].definition.customer != objects[b].definition.customer);
                    }
                }
            },
            None => {
                self.objects.push(info);
                proof {
                    assert(self@ =~= objects.push(v));
                    assert forall|a: int, b: int| 0 <= a < b < self@.len() implies #[trigger] self@[a].definition.customer
                        != #[trigger] self@[b].definition.customer by {
                        if b < objects.len() {
                            assert(objects[a].definition.customer != objects[b].definition.customer);
                        }
                    }
                }
            },
        }
    }

    fn remove_customer(&mut self, customer: AspaCustomer)
        requires
            old(self).wf(),
        ensures
            final(self).wf(),
            final(self)@ == old(self)@.filter(other_object(customer)),
    {
        let ghost objects = self@;
        let ghost keep = other_object(customer);
        let mut kept: Vec<AspaInfo> = Vec::new();
        let mut i: usize = 0;
        while i < self.objects.len()
            invariant
                self@ == objects,
                keep == other_object(customer),
                i <= self.objects@.len(),
                info_views(kept@) == objects.take(i as int).filter(keep),
            decreases self.objects@.len() - i,
        {
            let ghost before = kept@;
            assert(objects[i as int] == self.objects@[i as int]@);
            if self.objects[i].customer() != customer {
                kept.push(self.objects[i].duplicate());
                assert(info_views(kept@) =~= info_views(before).push(objects[i as int]));
            }
            proof {
                assert(objects.take(i + 1) =~= objects.take(i as int).push(objects[i as int]));
                objects.take(i as int).lemma_filter_push(objects[i as int], keep);
            }
            i = i + 1;
        }
        self.objects = kept;
        proof {
            assert(objects.take(objects.len() as int) =~= objects);
            lemma_filter_objects(objects, keep);
        }
    }

    /// Applies a batch: puts every object it updates in place of the one for
    /// the same customer, then withdraws the objects of the customers it
    /// removes.
    pub fn updated(&mut self, updates: AspaObjectsUpdates)
        requires
            old(self).wf(),
        ensures
            final(self).wf(),
            final(self)@ == objects_remove_all(
                objects_put_all(old(self)@, updates.updated_view()),
                updates.removed_view(),
            ),
    {
        let ghost start = self@;
        let ghost infos = updates.updated_view();
        let ghost customers = updates.removed_view();
        let (updated, removed) = updates.unpack();
        let mut i: usize = 0;
        while i < updated.len()
            invariant
                self.wf(),
                i <= updated@.len(),
                info_views(updated@) == infos,
                self@ == objects_put_all(start, infos.take(i as int)),
            decreases updated@.len() - i,
        {
            assert(infos[i as int] == updated@[i as int]@);
            assert(infos.take(i + 1).drop_last() =~= infos.take(i as int));
            self.put(updated[i].duplicate());
            i = i + 1;
        }
        assert(infos.take(i as int) =~= infos);
        let ghost middle = self@;
        let mut j: usize = 0;
        while j < removed.len()
            invariant
                self.wf(),
                j <= removed@.len(),
                self@ == objects_remove_all(middle, removed@.take(j as int)),
            decreases removed@.len() - j,
        {
            let customer = removed[j];
            assert(removed@.take(j + 1).drop_last() =~= removed@.take(j as int));
            self.remove_customer(customer);
            j = j + 1;
        }
        assert(removed@.take(j as int) =~= removed@);
    }

    pub fn is_empty(&self) -> (r: bool)
        ensures
            r == (self@.len() == 0),
    {
        self.objects.len() == 0
    }
}

impl Default for AspaObjects {
    fn default() -> (r: Self)
        ensures
            r@ == Seq::<AspaInfoView>::empty(),
            r.wf(),
    {
        AspaObjects::new()
    }
}

//------------ Laws of the update --------------------------------------------

/// An update never both issues an object for a customer and withdraws the
/// object of that customer.
pub proof fn lemma_update_disjoint(
    objects: Seq<AspaInfoView>,
    defs: Seq<AspaDefinitionView>,
    resources: Seq<AsRange>,
)
    ensures
        forall|i: int, j: int|
            0 <= i < issued_by_update(objects, defs, resources).len() && 0 <= j
                < withdrawn_by_update(objects, defs, resources).len() ==> #[trigger] issued_by_update(
                objects,
                defs,
                resources,
            )[i].customer != #[trigger] withdrawn_by_update(objects, defs, resources)[j],
{
    let issued = issued_by_update(objects, defs, resources);
    let kept = objects.filter(to_withdraw(defs, resources));
    assert forall|i: int, j: int|
        0 <= i < issued.len() && 0 <= j < withdrawn_by_update(objects, defs, resources).len()
            implies #[trigger] issued[i].customer != #[trigger] withdrawn_by_update(
        objects,
        defs,
        resources,
    )[j] by {
        defs.lemma_filter_pred(to_issue(objects, resources), i);
        assert(issued.contains(issued[i]));
        defs.lemma_filter_contains_rev(to_issue(objects, resources), issued[i]);
        let k = choose|k: int| 0 <= k < defs.len() && defs[k] == issued[i];
        assert(defs[k].customer == issued[i].customer);
        assert(has_definition(defs, issued[i].customer));
        objects.lemma_filter_pred(to_withdraw(defs, resources), j);
        assert(withdrawn_by_update(objects, defs, resources)[j] == kept[j].definition.customer);
    }
}

/// Every customer that an update withdraws has no definition, or is not held
/// by the key.
pub proof fn lemma_update_withdraws_only_unbacked(
    objects: Seq<AspaInfoView>,
    defs: Seq<AspaDefinitionView>,
    resources: Seq<AsRange>,
)
    ensures
        forall|j: int|
            0 <= j < withdrawn_by_update(objects, defs, resources).len() ==> !has_definition(
                defs,
                #[trigger] withdrawn_by_update(objects, defs, resources)[j],
            ) || !holds_asn(resources, withdrawn_by_update(objects, defs, resources)[j]),
{
    let kept = objects.filter(to_withdraw(defs, resources));
    assert forall|j: int| 0 <= j < withdrawn_by_update(objects, defs, resources).len() implies !has_definition(
        defs,
        #[trigger] withdrawn_by_update(objects, defs, resources)[j],
    ) || !holds_asn(resources, withdrawn_by_update(objects, defs, resources)[j]) by {
        objects.lemma_filter_pred(to_withdraw(defs, resources), j);
        assert(withdrawn_by_update(objects, defs, resources)[j] == kept[j].definition.customer);
    }
}

} // verus!
