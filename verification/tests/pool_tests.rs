use site_stats::parsing_error::ParsingError;
use site_stats::sites_collection::SitesCollection;

#[test]
fn set_thread_amount_configures_once_then_fails() {
    let sites = SitesCollection::new();
    let first = sites.set_thread_amount(2);
    assert!(first.is_ok());
    // The process-wide pool can only be configured once; the second attempt
    // must surface the threadpool error, not abort the run.
    let second = sites.set_thread_amount(4);
    assert!(matches!(
        second,
        Err(ParsingError::ErrorWhileBuildingThreadpool(_))
    ));
}
