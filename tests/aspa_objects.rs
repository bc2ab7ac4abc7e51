use krill::aspa::{
    aspa_object_name, make_aspa_object, AsRange, AspaDefinition, AspaDefinitions, AspaInfo,
    AspaObjectRequest, AspaObjects, AspaObjectsUpdates, AspaProvidersUpdate, AspaSigner,
    CertifiedKey, Validity,
};
use krill::error::Error;

/// Signs by handing back fixed bytes; its serials are always the same.
struct FakeSigner;

impl AspaSigner for FakeSigner {
    fn random_serial(&self) -> Result<Vec<u8>, Error> {
        Ok(vec![1, 2, 3])
    }

    fn sign_aspa(&self, _: &AspaObjectRequest, _: &String) -> Result<Vec<u8>, Error> {
        Ok(b"abc".to_vec())
    }
}

/// A signer that always fails.
struct BrokenSigner;

impl AspaSigner for BrokenSigner {
    fn random_serial(&self) -> Result<Vec<u8>, Error> {
        Err(Error::Custom(String::from("signer is down")))
    }

    fn sign_aspa(&self, _: &AspaObjectRequest, _: &String) -> Result<Vec<u8>, Error> {
        Err(Error::Custom(String::from("signer is down")))
    }
}

const SIGNING_TIME: i64 = 1_500;

const VALIDITY: Validity = Validity { not_before: 1_000, not_after: 2_000 };

fn key_holding(min: u32, max: u32) -> CertifiedKey {
    CertifiedKey::new(
        String::from("key"),
        vec![AsRange { min, max }],
        String::from("rsync://example.net/repo/ca.crl"),
        String::from("rsync://example.net/parent/ca.cer"),
        String::from("rsync://example.net/repo/"),
        String::from("CN=ca"),
    )
}

fn defs_with(customer: u32, providers: Vec<u32>) -> AspaDefinitions {
    let mut defs = AspaDefinitions::new();
    defs.add_or_replace(AspaDefinition::new(customer, providers));
    defs
}

fn objects_with(info: AspaInfo) -> AspaObjects {
    let mut batch = AspaObjectsUpdates::new();
    batch.add_updated(info);
    let mut objects = AspaObjects::new();
    objects.updated(batch);
    objects
}

fn info_for(customer: u32, providers: Vec<u32>) -> AspaInfo {
    let def = AspaDefinition::new(customer, providers);
    let signed = make_aspa_object(&def, &key_holding(64500, 64500), &VALIDITY, SIGNING_TIME, &FakeSigner).unwrap();
    AspaInfo::new(def, signed)
}

#[test]
fn issues_object_for_new_definition() {
    let objects = AspaObjects::new();
    let defs = defs_with(64500, vec![64501, 64502]);
    let updates = objects.update(&defs, &key_holding(64500, 64500), &VALIDITY, SIGNING_TIME, &FakeSigner).unwrap();
    assert_eq!(updates.updated().len(), 1);
    let info = &updates.updated()[0];
    assert_eq!(info.customer(), 64500);
    assert_eq!(info.definition().providers(), &vec![64501, 64502]);
    assert_eq!(info.expires(), 2_000);
    assert_eq!(info.uri(), "rsync://example.net/repo/AS64500.asa");
    assert_eq!(info.serial(), &vec![1, 2, 3]);
    assert_eq!(info.base64(), "YWJj");
    assert!(updates.removed().is_empty());
}

#[test]
fn withdraws_object_when_resource_is_lost() {
    let objects = objects_with(info_for(64500, vec![64501]));
    let defs = defs_with(64500, vec![64501]);
    let updates = objects.update(&defs, &key_holding(65000, 65100), &VALIDITY, SIGNING_TIME, &FakeSigner).unwrap();
    assert!(updates.updated().is_empty());
    assert_eq!(updates.removed(), &vec![64500]);
}

#[test]
fn reissues_object_when_definition_changes() {
    let objects = objects_with(info_for(64500, vec![64501]));
    let defs = defs_with(64500, vec![64501, 64502]);
    let updates = objects.update(&defs, &key_holding(64500, 64500), &VALIDITY, SIGNING_TIME, &FakeSigner).unwrap();
    assert_eq!(updates.updated().len(), 1);
    assert_eq!(updates.updated()[0].definition().providers(), &vec![64501, 64502]);
    assert!(updates.removed().is_empty());
}

#[test]
fn reissues_object_when_provider_order_changes() {
    let objects = objects_with(info_for(64500, vec![64501, 64502]));
    let defs = defs_with(64500, vec![64502, 64501]);
    let updates = objects.update(&defs, &key_holding(64500, 64500), &VALIDITY, SIGNING_TIME, &FakeSigner).unwrap();
    assert_eq!(updates.updated().len(), 1);
    assert_eq!(updates.updated()[0].definition().providers(), &vec![64502, 64501]);
}

#[test]
fn unchanged_definition_issues_nothing() {
    let objects = objects_with(info_for(64500, vec![64501]));
    let defs = defs_with(64500, vec![64501]);
    let updates = objects.update(&defs, &key_holding(64500, 64500), &VALIDITY, SIGNING_TIME, &FakeSigner).unwrap();
    assert!(updates.is_empty());
}

#[test]
fn withdraws_object_when_definition_is_removed() {
    let objects = objects_with(info_for(64500, vec![64501]));
    let defs = AspaDefinitions::new();
    let updates = objects.update(&defs, &key_holding(64500, 64500), &VALIDITY, SIGNING_TIME, &FakeSigner).unwrap();
    assert!(updates.updated().is_empty());
    assert_eq!(updates.removed(), &vec![64500]);
}

#[test]
fn customer_out_of_resources_and_without_definition_is_removed_once() {
    let objects = objects_with(info_for(64500, vec![64501]));
    let defs = AspaDefinitions::new();
    let updates = objects.update(&defs, &key_holding(1, 2), &VALIDITY, SIGNING_TIME, &FakeSigner).unwrap();
    assert_eq!(updates.removed(), &vec![64500]);
}

#[test]
fn definition_outside_resources_is_not_issued() {
    let objects = AspaObjects::new();
    let defs = defs_with(64500, vec![64501]);
    let updates = objects.update(&defs, &key_holding(1, 2), &VALIDITY, SIGNING_TIME, &FakeSigner).unwrap();
    assert!(updates.is_empty());
}

#[test]
fn signer_failure_aborts_the_batch() {
    let objects = AspaObjects::new();
    let defs = defs_with(64500, vec![64501]);
    assert!(objects.update(&defs, &key_holding(64500, 64500), &VALIDITY, SIGNING_TIME, &BrokenSigner).is_err());
}

#[test]
fn duplicate_provider_cannot_be_attested() {
    let def = AspaDefinition::new(64500, vec![64501, 64502, 64501]);
    assert!(make_aspa_object(&def, &key_holding(64500, 64500), &VALIDITY, SIGNING_TIME, &FakeSigner).is_err());
    let ok = AspaDefinition::new(64500, vec![64502, 64501]);
    assert!(make_aspa_object(&ok, &key_holding(64500, 64500), &VALIDITY, SIGNING_TIME, &FakeSigner).is_ok());
}

#[test]
fn renew_without_threshold_renews_everything() {
    let objects = objects_with(info_for(64500, vec![64501]));
    let later = Validity { not_before: 3_000, not_after: 9_000 };
    let updates = objects.renew(&key_holding(64500, 64500), None, &later, SIGNING_TIME, &FakeSigner).unwrap();
    assert_eq!(updates.updated().len(), 1);
    assert_eq!(updates.updated()[0].expires(), 9_000);
    assert!(updates.removed().is_empty());
}

#[test]
fn renew_with_threshold_renews_only_expiring_objects() {
    let objects = objects_with(info_for(64500, vec![64501]));
    let later = Validity { not_before: 3_000, not_after: 9_000 };
    let none = objects.renew(&key_holding(64500, 64500), Some(2_000), &later, SIGNING_TIME, &FakeSigner).unwrap();
    assert!(none.is_empty());
    let some = objects.renew(&key_holding(64500, 64500), Some(2_001), &later, SIGNING_TIME, &FakeSigner).unwrap();
    assert_eq!(some.updated().len(), 1);
}

#[test]
fn updated_applies_puts_then_removals() {
    let mut objects = objects_with(info_for(64500, vec![64501]));
    let mut batch = AspaObjectsUpdates::new();
    batch.add_updated(info_for(64500, vec![64502]));
    batch.add_updated(info_for(64510, vec![64501]));
    batch.add_removed(64510);
    objects.updated(batch);
    assert!(!objects.is_empty());
    let defs = defs_with(64500, vec![64502]);
    // Only the replaced object for 64500 is left, and it matches.
    let updates = objects.update(&defs, &key_holding(64500, 64510), &VALIDITY, SIGNING_TIME, &FakeSigner).unwrap();
    assert!(updates.is_empty());
}

#[test]
fn apply_update_creates_definition() {
    let mut defs = AspaDefinitions::new();
    defs.apply_update(64500, &AspaProvidersUpdate::new(vec![64501, 64502], vec![]));
    assert!(defs.has(64500));
    assert_eq!(defs.get(64500).unwrap().providers(), &vec![64501, 64502]);
    assert_eq!(defs.len(), 1);
}

#[test]
fn apply_update_that_empties_providers_removes_definition() {
    let mut defs = defs_with(64500, vec![64501]);
    defs.apply_update(64500, &AspaProvidersUpdate::new(vec![], vec![64501]));
    assert!(!defs.has(64500));
    assert!(defs.is_empty());
}

#[test]
fn apply_update_that_adds_nothing_creates_nothing() {
    let mut defs = AspaDefinitions::new();
    defs.apply_update(64500, &AspaProvidersUpdate::new(vec![], vec![64501]));
    assert!(!defs.has(64500));
    assert_eq!(defs.len(), 0);
}

#[test]
fn apply_update_adds_and_removes() {
    let mut defs = defs_with(64500, vec![64501, 64502]);
    defs.apply_update(64500, &AspaProvidersUpdate::new(vec![64503, 64502], vec![64501]));
    assert_eq!(defs.get(64500).unwrap().providers(), &vec![64502, 64503]);
}

#[test]
fn add_or_replace_and_remove() {
    let mut defs = defs_with(64500, vec![64501]);
    defs.add_or_replace(AspaDefinition::new(64500, vec![64509]));
    defs.add_or_replace(AspaDefinition::new(64600, vec![64601]));
    assert_eq!(defs.len(), 2);
    assert_eq!(defs.get(64500).unwrap().providers(), &vec![64509]);
    defs.remove(64500);
    defs.remove(64500);
    assert!(!defs.has(64500));
    assert_eq!(defs.all().len(), 1);
    assert_eq!(defs.all()[0].customer(), 64600);
}

#[test]
fn update_results_are_disjoint_and_backed() {
    // 64500 is reissued, 64600 lost its definition, 64700 is out of resources.
    let mut batch = AspaObjectsUpdates::new();
    batch.add_updated(info_for(64500, vec![64501]));
    batch.add_updated(info_for(64600, vec![64601]));
    batch.add_updated(info_for(64700, vec![64701]));
    let mut objects = AspaObjects::new();
    objects.updated(batch);
    let mut defs = defs_with(64500, vec![64502]);
    defs.add_or_replace(AspaDefinition::new(64700, vec![64701]));
    let updates = objects.update(&defs, &key_holding(64500, 64600), &VALIDITY, SIGNING_TIME, &FakeSigner).unwrap();
    let issued: Vec<u32> = updates.updated().iter().map(|i| i.customer()).collect();
    assert_eq!(issued, vec![64500]);
    assert_eq!(updates.removed(), &vec![64600, 64700]);
    for c in updates.removed() {
        assert!(!issued.contains(c));
    }
}

#[test]
fn defaults_are_empty() {
    assert!(AspaDefinitions::default().is_empty());
    assert!(AspaObjects::default().is_empty());
}

#[test]
fn object_request_is_built_from_the_key() {
    let def = AspaDefinition::new(64500, vec![64501, 64502]);
    let signed = make_aspa_object(&def, &key_holding(64500, 64500), &VALIDITY, SIGNING_TIME, &FakeSigner).unwrap();
    let request = &signed.request;
    assert_eq!(request.customer, 64500);
    assert_eq!(request.providers, vec![64501, 64502]);
    assert_eq!(request.serial, vec![1, 2, 3]);
    assert_eq!(request.validity.not_after, 2_000);
    assert_eq!(request.crl_uri, "rsync://example.net/repo/ca.crl");
    assert_eq!(request.ca_issuer_uri, "rsync://example.net/parent/ca.cer");
    assert_eq!(request.signed_object_uri, "rsync://example.net/repo/AS64500.asa");
    assert_eq!(request.issuer, "CN=ca");
    assert_eq!(request.signing_time, SIGNING_TIME);
}

#[test]
fn object_name_is_as_number_with_asa_suffix() {
    assert_eq!(aspa_object_name(64500), "AS64500.asa");
    assert_eq!(aspa_object_name(0), "AS0.asa");
}

#[test]
fn info_hash_is_sha256_of_content() {
    let info = info_for(64500, vec![64501]);
    let expected: Vec<u8> = (0..32)
        .map(|i| u8::from_str_radix(&"ba7816bf8f01cfea414140de5dae2223b00361a396177a9cb410ff61f20015ad"[2 * i..2 * i + 2], 16).unwrap())
        .collect();
    assert_eq!(info.hash(), &expected);
}

#[test]
fn make_aspa_carries_validity_and_uri() {
    let objects = AspaObjects::new();
    let info = objects
        .make_aspa(AspaDefinition::new(64510, vec![64501]), &key_holding(64500, 64510), &VALIDITY, SIGNING_TIME, &FakeSigner)
        .unwrap();
    assert_eq!(info.customer(), 64510);
    assert_eq!(info.expires(), 2_000);
    assert_eq!(info.uri(), "rsync://example.net/repo/AS64510.asa");
}
