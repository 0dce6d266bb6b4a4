use libcitesync::config::CiteSyncClientConfig;

#[test]
fn default_client_config() {
    let c = CiteSyncClientConfig::default();
    assert_eq!(c.api_url, "http://127.0.0.1:3000");
    assert!(c.bib_files.is_empty());
}
