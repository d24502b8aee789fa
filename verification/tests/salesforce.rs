use sfdl::error::LoadError;
use sfdl::salesforce::{
    bulk_completed, bulk_ended, bulk_failed, bulk_progress, call_salesforce_bulk_operation,
    download_arguments, download_failed_bulk_results, download_failure, failure_outcome,
    org_display_arguments, org_display_failure, query_arguments, query_failure, read_failure,
    read_org_access, BulkOutcome, FailureReply, OrgAccess, SfBulkResult,
};

#[test]
fn arguments_of_a_query() {
    assert_eq!(
        query_arguments("my-org", "SELECT Id FROM Account"),
        vec![
            "data",
            "query",
            "--target-org",
            "my-org",
            "--query",
            "SELECT Id FROM Account",
            "--json"
        ]
    );
    assert_eq!(query_failure("no org"), "Salesforce CLI query failed:\nno org");
}

#[test]
fn arguments_of_a_load() {
    let expected = |command: &'static str| -> Result<Vec<String>, String> {
        Ok(vec![
            "data", command, "bulk", "--file", "/tmp/x", "--sobject", "Contact", "--line-ending",
            "CRLF", "--wait", "10", "--target-org", "my-org", "--json",
        ]
        .into_iter()
        .map(|s| s.to_string())
        .collect())
    };
    assert_eq!(
        call_salesforce_bulk_operation("insert", "my-org", "Contact", "/tmp/x"),
        expected("import")
    );
    assert_eq!(
        call_salesforce_bulk_operation("update", "my-org", "Contact", "/tmp/x"),
        expected("update")
    );
    assert_eq!(
        call_salesforce_bulk_operation("delete", "my-org", "Contact", "/tmp/x"),
        Err("Unsupported operation 'delete'".to_string())
    );
}

#[test]
fn progress_of_a_load() {
    assert_eq!(bulk_progress("insert", "Contact"), "Inserting records into Contact...");
    assert_eq!(bulk_progress("update", "Contact"), "Updating records into Contact...");
    assert_eq!(bulk_progress("other", "Contact"), "Loading records into Contact...");
}

fn result() -> SfBulkResult {
    SfBulkResult {
        id: None,
        job_id: None,
        number_records_processed: None,
        number_records_failed: None,
        processed_records: None,
        failed_records: None,
        successful_results: None,
        failed_results: None,
    }
}

fn completed(result: SfBulkResult) -> BulkOutcome {
    bulk_completed("insert", "Contact", "{}", result, "x_ERRORS.csv")
}

fn message_of(outcome: BulkOutcome) -> String {
    match outcome {
        BulkOutcome::Complete(message) => message,
        other => panic!("{:?}", other),
    }
}

#[test]
fn a_complete_load() {
    assert_eq!(
        message_of(completed(result())),
        "✔ insert complete for Contact. Processed: 0, Failed: 0"
    );
    let mut first = result();
    first.number_records_processed = Some(12);
    first.processed_records = Some(1);
    first.successful_results = Some(2);
    first.number_records_failed = Some(0);
    first.failed_records = Some(9);
    assert_eq!(
        message_of(completed(first)),
        "✔ insert complete for Contact. Processed: 12, Failed: 0"
    );
    let mut second = result();
    second.processed_records = Some(7);
    second.successful_results = Some(2);
    assert_eq!(
        message_of(completed(second)),
        "✔ insert complete for Contact. Processed: 7, Failed: 0"
    );
    let mut third = result();
    third.successful_results = Some(u64::MAX);
    assert_eq!(
        message_of(completed(third)),
        format!("✔ insert complete for Contact. Processed: {}, Failed: 0", u64::MAX)
    );
}

#[test]
fn a_load_with_rejected_rows_fails() {
    let expected = "Salesforce bulk insert completed with failed records.\n\nProcessed: 5\nFailed: 2\nFailed rows saved to: x_ERRORS.csv";
    for which in 0..3 {
        let mut failed = result();
        failed.number_records_processed = Some(5);
        match which {
            0 => failed.number_records_failed = Some(2),
            1 => failed.failed_records = Some(2),
            _ => failed.failed_results = Some(2),
        }
        failed.id = Some("750".to_string());
        failed.job_id = Some("751".to_string());
        match completed(failed) {
            BulkOutcome::SaveFailedRows { job_id, error } => {
                assert_eq!(job_id, "750");
                assert_eq!(error, expected);
            }
            other => panic!("{:?}", other),
        }
    }
    let mut failed = result();
    failed.failed_records = Some(1);
    failed.job_id = Some("751".to_string());
    assert!(matches!(
        completed(failed),
        BulkOutcome::SaveFailedRows { job_id, .. } if job_id == "751"
    ));
}

#[test]
fn rejected_rows_without_a_job() {
    let mut failed = result();
    failed.failed_results = Some(3);
    match completed(failed) {
        BulkOutcome::Fail(error) => assert_eq!(
            error,
            "Salesforce reported failed rows, but no job id was found in the response.\n\nFull response:\n{}"
        ),
        other => panic!("{:?}", other),
    }
}

#[test]
fn what_a_failure_says() {
    let job = |stdout: &str| read_failure(stdout).unwrap().job_id;
    assert!(read_failure("not json").is_none());
    assert!(read_failure("").is_none());
    let reply = read_failure("{}").unwrap();
    assert_eq!((reply.message, reply.job_id), (None, None));
    let reply = read_failure("{\"message\": \"no\\u0020access\"}").unwrap();
    assert_eq!(reply.message, Some("no access".to_string()));
    assert!(read_failure("{\"message\": 5}").unwrap().message.is_none());
    assert!(read_failure("[1]").unwrap().message.is_none());
    assert_eq!(
        job("{\"data\": {\"jobId\": \"a\"}, \"result\": {\"id\": \"b\", \"jobId\": \"c\"}}"),
        Some("a".to_string())
    );
    assert_eq!(
        job("{\"data\": {\"jobId\": 1}, \"result\": {\"id\": \"b\", \"jobId\": \"c\"}}"),
        Some("b".to_string())
    );
    assert_eq!(job("{\"result\": {\"jobId\": \"c\"}}"), Some("c".to_string()));
    assert_eq!(job("{\"result\": \"c\"}"), None);
}

#[test]
fn a_failed_load() {
    match bulk_failed(
        "update",
        "{\"message\": \"bad field\", \"data\": {\"jobId\": \"750\"}}",
        "err",
        "x_ERRORS.csv",
    ) {
        BulkOutcome::SaveFailedRows { job_id, error } => {
            assert_eq!(job_id, "750");
            assert_eq!(
                error,
                "Salesforce bulk update failed.\n\nbad field\n\nFailed rows saved to: x_ERRORS.csv"
            );
        }
        other => panic!("{:?}", other),
    }
    match bulk_failed("update", "{\"message\": \"bad field\"}", "err", "x") {
        BulkOutcome::Fail(error) => assert_eq!(error, "Salesforce error:\nbad field"),
        other => panic!("{:?}", other),
    }
    match bulk_failed("update", "{}", "err", "x") {
        BulkOutcome::Fail(error) => {
            assert_eq!(error, "Salesforce error:\nSalesforce bulk operation failed")
        }
        other => panic!("{:?}", other),
    }
    match bulk_failed("update", "oops", "err", "x") {
        BulkOutcome::Fail(error) => assert_eq!(
            error,
            "Salesforce bulk update failed.\n\nSTDOUT:\noops\n\nSTDERR:\nerr"
        ),
        other => panic!("{:?}", other),
    }
}

#[test]
fn a_failed_load_given_its_reply() {
    let reply = FailureReply { message: None, job_id: Some("7".to_string()) };
    match failure_outcome("insert", Some(reply), "out", "err", "x") {
        BulkOutcome::SaveFailedRows { job_id, error } => {
            assert_eq!(job_id, "7");
            assert_eq!(
                error,
                "Salesforce bulk insert failed.\n\nSalesforce bulk operation failed\n\nFailed rows saved to: x"
            );
        }
        other => panic!("{:?}", other),
    }
}

#[test]
fn asking_for_the_access_to_an_org() {
    assert_eq!(
        org_display_arguments("my-org"),
        vec!["org", "display", "--target-org", "my-org", "--json"]
    );
    assert_eq!(org_display_failure("e"), "Failed to get org auth details.\n\ne");
    assert_eq!(download_failure("e"), "Failed to download failed results.\n\ne");
}

#[test]
fn reading_the_access_to_an_org() {
    let shown = b"{\"result\": {\"accessToken\": \"t\", \"instanceUrl\": \"https://x\"}}".to_vec();
    let access = read_org_access(&shown).unwrap_or_else(|e| panic!("{:?}", e));
    assert_eq!(access.access_token, "t");
    assert_eq!(access.instance_url, "https://x");
    let error = |shown: &[u8]| match read_org_access(&shown.to_vec()) {
        Err(LoadError::Message(message)) => message,
        _ => panic!("no message"),
    };
    assert_eq!(error(b"{}"), "Could not find accessToken from sf org display");
    assert_eq!(
        error(b"{\"result\": {\"instanceUrl\": \"u\"}}"),
        "Could not find accessToken from sf org display"
    );
    assert_eq!(
        error(b"{\"result\": {\"accessToken\": \"t\"}}"),
        "Could not find instanceUrl from sf org display"
    );
    assert!(matches!(read_org_access(&b"<html>".to_vec()), Err(LoadError::Json(_))));
    assert!(matches!(read_org_access(&b"\"\xff\"".to_vec()), Err(LoadError::Json(_))));
}

#[test]
fn fetching_rejected_rows() {
    let access =
        OrgAccess { access_token: "t".to_string(), instance_url: "https://x".to_string() };
    let expected = vec![
        "-sS",
        "-H",
        "Authorization: Bearer t",
        "-H",
        "Accept: text/csv",
        "https://x/services/data/v60.0/jobs/ingest/750/failedResults",
    ];
    assert_eq!(download_arguments(&access, "750"), expected);
    let shown = b"{\"result\": {\"accessToken\": \"t\", \"instanceUrl\": \"https://x\"}}".to_vec();
    match download_failed_bulk_results(&shown, "750") {
        Ok(args) => assert_eq!(args, expected),
        Err(error) => panic!("{:?}", error),
    }
    assert!(matches!(
        download_failed_bulk_results(&b"{}".to_vec(), "750"),
        Err(LoadError::Message(_))
    ));
    assert!(matches!(
        download_failed_bulk_results(&b"{".to_vec(), "750"),
        Err(LoadError::Json(_))
    ));
}

#[test]
fn how_a_load_ended() {
    let ended = |success: bool, parsed: Option<SfBulkResult>| {
        bulk_ended(success, "insert", "Contact", "oops", "err", parsed, "x_ERRORS.csv")
    };
    assert_eq!(
        message_of(ended(true, Some(result())).unwrap()),
        "✔ insert complete for Contact. Processed: 0, Failed: 0"
    );
    assert!(ended(true, None).is_none());
    for parsed in [None, Some(result())] {
        match ended(false, parsed) {
            Some(BulkOutcome::Fail(error)) => assert_eq!(
                error,
                "Salesforce bulk insert failed.\n\nSTDOUT:\noops\n\nSTDERR:\nerr"
            ),
            other => panic!("{:?}", other),
        }
    }
}
