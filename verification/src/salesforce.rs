//! Talking to the Salesforce command line: what it is asked, and what its
//! answers mean.

use vstd::prelude::*;
use vstd::string::*;
use vstd::utf8::*;

use crate::error::LoadError;
use crate::export;
use crate::export::write_objects_to_csv;
use crate::fields::OutputObject;
use crate::json;
use crate::json::{parse_json, parse_json_bytes, read_text_at, read_text_member, Json};
use crate::objects;
use crate::objects::validate_operation_requirements;
use crate::template::TemplateConfig;
use crate::text;
use crate::text::{decimal_text, text_eq, Text};

verus! {

// ---------------------------------------------------------------------------
// Queries
// ---------------------------------------------------------------------------

/// The arguments that run a query.
pub open spec fn query_arguments_of(org: Text, soql: Text) -> Seq<Text> {
    seq!["data"@, "query"@, "--target-org"@, org, "--query"@, soql, "--json"@]
}

/// The arguments that run a query.
pub fn query_arguments(org: &str, soql: &str) -> (r: Vec<String>)
    ensures
        text::texts(r@) == query_arguments_of(org@, soql@),
{
    let mut args: Vec<String> = Vec::new();
    args.push("data".to_string());
    args.push("query".to_string());
    args.push("--target-org".to_string());
    args.push(org.to_string());
    args.push("--query".to_string());
    args.push(soql.to_string());
    args.push("--json".to_string());
    assert(text::texts(args@) =~= query_arguments_of(org@, soql@));
    args
}

/// Why a query failed.
pub fn query_failure(stderr: &str) -> (r: String)
    ensures
        r@ == "Salesforce CLI query failed:\n"@ + stderr@,
{
    let mut message = "Salesforce CLI query failed:\n".to_string();
    message.append(stderr);
    message
}

// ---------------------------------------------------------------------------
// Starting a load
// ---------------------------------------------------------------------------

/// What there is to load.
pub enum LoadPlan {
    /// No objects.
    Nothing,
    /// A CSV document.
    Upload(Vec<u8>),
}

/// What there is to load: nothing where there are no objects, else the objects
/// as a CSV document, once they are found fit for the operation.
pub fn load_objects_to_salesforce(
    template_config: &TemplateConfig,
    objects: &Vec<OutputObject>,
) -> (r: Result<LoadPlan, LoadError>)
    ensures
        if objects@.len() == 0 {
            r matches Ok(LoadPlan::Nothing)
        } else if objects::loadable(template_config.target.operation@, objects@) {
            r matches Ok(LoadPlan::Upload(bytes)) && bytes@ == encode_utf8(
                export::csv_document(objects@),
            )
        } else {
            r matches Err(LoadError::Message(message)) && objects::is_load_fault(
                template_config.target.operation@,
                objects@,
                message@,
            )
        },
{
    if objects.len() == 0 {
        return Ok(LoadPlan::Nothing);
    }
    match validate_operation_requirements(template_config, objects) {
        Ok(_) => {},
        Err(message) => return Err(LoadError::Message(message)),
    }
    match write_objects_to_csv(objects) {
        Ok(bytes) => Ok(LoadPlan::Upload(bytes)),
        Err(error) => Err(LoadError::Csv(error)),
    }
}

/// The command for an operation.
pub open spec fn command_of(operation: Text) -> Option<Text> {
    if operation == "insert"@ {
        Some("import"@)
    } else if operation == "update"@ {
        Some("update"@)
    } else {
        None
    }
}

/// The arguments that load the CSV file at `csv_path`.
pub open spec fn bulk_arguments_of(
    command: Text,
    org: Text,
    object: Text,
    csv_path: Text,
) -> Seq<Text> {
    seq![
        "data"@,
        command,
        "bulk"@,
        "--file"@,
        csv_path,
        "--sobject"@,
        object,
        "--line-ending"@,
        "CRLF"@,
        "--wait"@,
        "10"@,
        "--target-org"@,
        org,
        "--json"@,
    ]
}

/// The arguments that load the CSV file at `csv_path`.
pub fn call_salesforce_bulk_operation(
    operation: &str,
    org: &str,
    object: &str,
    csv_path: &str,
) -> (r: Result<Vec<String>, String>)
    ensures
        match command_of(operation@) {
            Some(command) => r matches Ok(args) && text::texts(args@) == bulk_arguments_of(
                command,
                org@,
                object@,
                csv_path@,
            ),
            None => r matches Err(message) && message@ == "Unsupported operation '"@ + operation@
                + "'"@,
        },
{
    let command = if text_eq(operation, "insert") {
        "import"
    } else if text_eq(operation, "update") {
        "update"
    } else {
        let mut message = "Unsupported operation '".to_string();
        message.append(operation);
        message.append("'");
        return Err(message);
    };
    let mut args: Vec<String> = Vec::new();
    args.push("data".to_string());
    args.push(command.to_string());
    args.push("bulk".to_string());
    args.push("--file".to_string());
    args.push(csv_path.to_string());
    args.push("--sobject".to_string());
    args.push(object.to_string());
    args.push("--line-ending".to_string());
    args.push("CRLF".to_string());
    args.push("--wait".to_string());
    args.push("10".to_string());
    args.push("--target-org".to_string());
    args.push(org.to_string());
    args.push("--json".to_string());
    assert(text::texts(args@) =~= bulk_arguments_of(command@, org@, object@, csv_path@));
    Ok(args)
}

/// What is shown while an operation runs.
pub fn bulk_progress(operation: &str, object: &str) -> (r: String)
    ensures
        r@ == (if operation@ == "insert"@ {
            "Inserting"@
        } else if operation@ == "update"@ {
            "Updating"@
        } else {
            "Loading"@
        }) + " records into "@ + object@ + "..."@,
{
    let mut message = if text_eq(operation, "insert") {
        "Inserting".to_string()
    } else if text_eq(operation, "update") {
        "Updating".to_string()
    } else {
        "Loading".to_string()
    };
    message.append(" records into ");
    message.append(object);
    message.append("...");
    message
}

// ---------------------------------------------------------------------------
// How a load ended
// ---------------------------------------------------------------------------

/// How a load ended.
#[derive(Debug)]
pub enum BulkOutcome {
    /// Everything was loaded.
    Complete(String),
    /// The load failed.
    Fail(String),
    /// The load failed, or rows were rejected: the rows rejected by the job
    /// are to be saved first.
    SaveFailedRows { job_id: String, error: String },
}

/// How a load ended, as contracts see it.
pub enum Ending {
    Complete(Text),
    Fail(Text),
    SaveFailedRows(Text, Text),
}

impl View for BulkOutcome {
    type V = Ending;

    open spec fn view(&self) -> Ending {
        match self {
            BulkOutcome::Complete(message) => Ending::Complete(message@),
            BulkOutcome::Fail(message) => Ending::Fail(message@),
            BulkOutcome::SaveFailedRows { job_id, error } => Ending::SaveFailedRows(
                job_id@,
                error@,
            ),
        }
    }
}

/// What the command line says of a load that failed.
#[derive(Debug)]
pub struct FailureReply {
    pub message: Option<String>,
    pub job_id: Option<String>,
}

/// The job that a failed load belongs to.
pub open spec fn failed_job(reply: Json) -> Option<Text> {
    if json::text_at(reply, "data"@, "jobId"@) is Some {
        json::text_at(reply, "data"@, "jobId"@)
    } else if json::text_at(reply, "result"@, "id"@) is Some {
        json::text_at(reply, "result"@, "id"@)
    } else {
        json::text_at(reply, "result"@, "jobId"@)
    }
}

/// What the output of a failed load says; none where it is not JSON.
pub fn read_failure(stdout: &str) -> (r: Option<FailureReply>)
    ensures
        match json::json_of_text(stdout@) {
            Some(reply) => {
                &&& r is Some
                &&& json::is_text(r->Some_0.message, json::text_member(reply, "message"@))
                &&& json::is_text(r->Some_0.job_id, failed_job(reply))
            },
            None => r is None,
        },
{
    let value = match parse_json(stdout) {
        Ok(value) => value,
        Err(_) => return None,
    };
    let message = read_text_member(&value, "message");
    let job_id = match read_text_at(&value, "data", "jobId") {
        Some(id) => Some(id),
        None => match read_text_at(&value, "result", "id") {
            Some(id) => Some(id),
            None => read_text_at(&value, "result", "jobId"),
        },
    };
    Some(FailureReply { message, job_id })
}

/// What is shown of a failed load without a message.
pub open spec fn message_or_default(message: Option<Text>) -> Text {
    match message {
        Some(message) => message,
        None => "Salesforce bulk operation failed"@,
    }
}

/// How a load ended that the command line reports as failed with `message`, as
/// part of the job `job_id`.
pub open spec fn failure_ending(
    operation: Text,
    message: Option<Text>,
    job_id: Option<Text>,
    failed_output_path: Text,
) -> Ending {
    match job_id {
        Some(job_id) => Ending::SaveFailedRows(
            job_id,
            "Salesforce bulk "@ + operation + " failed.\n\n"@ + message_or_default(message)
                + "\n\nFailed rows saved to: "@ + failed_output_path,
        ),
        None => Ending::Fail("Salesforce error:\n"@ + message_or_default(message)),
    }
}

/// How a load ended that failed without a readable report.
pub open spec fn unreadable_ending(operation: Text, stdout: Text, stderr: Text) -> Ending {
    Ending::Fail(
        "Salesforce bulk "@ + operation + " failed.\n\nSTDOUT:\n"@ + stdout + "\n\nSTDERR:\n"@
            + stderr,
    )
}

/// How a load ended that failed, given what its output says.
pub fn failure_outcome(
    operation: &str,
    reply: Option<FailureReply>,
    stdout: &str,
    stderr: &str,
    failed_output_path: &str,
) -> (r: BulkOutcome)
    ensures
        r@ == (match reply {
            Some(reply) => failure_ending(
                operation@,
                text::option_text(reply.message),
                text::option_text(reply.job_id),
                failed_output_path@,
            ),
            None => unreadable_ending(operation@, stdout@, stderr@),
        }),
{
    match reply {
        Some(reply) => {
            let message = match reply.message {
                Some(message) => message,
                None => "Salesforce bulk operation failed".to_string(),
            };
            match reply.job_id {
                Some(job_id) => {
                    let mut error = "Salesforce bulk ".to_string();
                    error.append(operation);
                    error.append(" failed.\n\n");
                    error.append(message.as_str());
                    error.append("\n\nFailed rows saved to: ");
                    error.append(failed_output_path);
                    BulkOutcome::SaveFailedRows { job_id, error }
                },
                None => {
                    let mut error = "Salesforce error:\n".to_string();
                    error.append(message.as_str());
                    BulkOutcome::Fail(error)
                },
            }
        },
        None => {
            let mut error = "Salesforce bulk ".to_string();
            error.append(operation);
            error.append(" failed.\n\nSTDOUT:\n");
            error.append(stdout);
            error.append("\n\nSTDERR:\n");
            error.append(stderr);
            BulkOutcome::Fail(error)
        },
    }
}

/// How a load ended that failed, by the output of the command line.
pub open spec fn bulk_failure(
    operation: Text,
    stdout: Text,
    stderr: Text,
    failed_output_path: Text,
) -> Ending {
    match json::json_of_text(stdout) {
        Some(reply) => failure_ending(
            operation,
            json::text_member(reply, "message"@),
            failed_job(reply),
            failed_output_path,
        ),
        None => unreadable_ending(operation, stdout, stderr),
    }
}

/// How a load ended that failed, given the output of the command line.
pub fn bulk_failed(operation: &str, stdout: &str, stderr: &str, failed_output_path: &str) -> (r:
    BulkOutcome)
    ensures
        r@ == bulk_failure(operation@, stdout@, stderr@, failed_output_path@),
{
    let reply = read_failure(stdout);
    proof {
        if reply is Some {
            let shown = json::json_of_text(stdout@)->Some_0;
            assert(text::option_text(reply->Some_0.message) == json::text_member(shown, "message"@));
            assert(text::option_text(reply->Some_0.job_id) == failed_job(shown));
        }
    }
    failure_outcome(operation, reply, stdout, stderr, failed_output_path)
}

/// What the command line reports of a load that ran. Which of the counts are
/// there depends on its version.
#[derive(Debug)]
pub struct SfBulkResult {
    pub id: Option<String>,
    pub job_id: Option<String>,
    pub number_records_processed: Option<u64>,
    pub number_records_failed: Option<u64>,
    pub processed_records: Option<u64>,
    pub failed_records: Option<u64>,
    pub successful_results: Option<u64>,
    pub failed_results: Option<u64>,
}

/// The first of three counts that is there, or zero.
pub open spec fn first_count(a: Option<u64>, b: Option<u64>, c: Option<u64>) -> u64 {
    match (a, b, c) {
        (Some(n), _, _) => n,
        (None, Some(n), _) => n,
        (None, None, Some(n)) => n,
        (None, None, None) => 0,
    }
}

fn count(a: Option<u64>, b: Option<u64>, c: Option<u64>) -> (r: u64)
    ensures
        r == first_count(a, b, c),
{
    match a {
        Some(n) => n,
        None => match b {
            Some(n) => n,
            None => match c {
                Some(n) => n,
                None => 0,
            },
        },
    }
}

/// How many records were processed.
pub open spec fn processed_count(result: SfBulkResult) -> u64 {
    first_count(
        result.number_records_processed,
        result.processed_records,
        result.successful_results,
    )
}

/// How many records were rejected.
pub open spec fn failed_count(result: SfBulkResult) -> u64 {
    first_count(result.number_records_failed, result.failed_records, result.failed_results)
}

/// The job of a load that ran.
pub open spec fn completed_job(result: SfBulkResult) -> Option<Text> {
    match result.id {
        Some(id) => Some(id@),
        None => text::option_text(result.job_id),
    }
}

/// How a load that ran ended: complete only where no record was rejected.
pub open spec fn completion(
    operation: Text,
    object: Text,
    stdout: Text,
    result: SfBulkResult,
    failed_output_path: Text,
) -> Ending {
    let processed = text::decimal(processed_count(result) as nat);
    let failed = text::decimal(failed_count(result) as nat);
    if failed_count(result) > 0 {
        match completed_job(result) {
            Some(job_id) => Ending::SaveFailedRows(
                job_id,
                "Salesforce bulk "@ + operation + " completed with failed records.\n\nProcessed: "@
                    + processed + "\nFailed: "@ + failed + "\nFailed rows saved to: "@
                    + failed_output_path,
            ),
            None => Ending::Fail(
                "Salesforce reported failed rows, but no job id was found in the response.\n\nFull response:\n"@
                    + stdout,
            ),
        }
    } else {
        Ending::Complete(
            "✔ "@ + operation + " complete for "@ + object + ". Processed: "@ + processed
                + ", Failed: "@ + failed,
        )
    }
}

/// How a load that ran ended.
pub fn bulk_completed(
    operation: &str,
    object: &str,
    stdout: &str,
    result: SfBulkResult,
    failed_output_path: &str,
) -> (r: BulkOutcome)
    ensures
        r@ == completion(operation@, object@, stdout@, result, failed_output_path@),
{
    let processed = count(
        result.number_records_processed,
        result.processed_records,
        result.successful_results,
    );
    let failed = count(result.number_records_failed, result.failed_records, result.failed_results);
    if failed > 0 {
        let job_id = match result.id {
            Some(id) => Some(id),
            None => result.job_id,
        };
        match job_id {
            Some(job_id) => {
                let mut error = "Salesforce bulk ".to_string();
                error.append(operation);
                error.append(" completed with failed records.\n\nProcessed: ");
                error.append(decimal_text(processed as u128).as_str());
                error.append("\nFailed: ");
                error.append(decimal_text(failed as u128).as_str());
                error.append("\nFailed rows saved to: ");
                error.append(failed_output_path);
                BulkOutcome::SaveFailedRows { job_id, error }
            },
            None => {
                let mut error =
                    "Salesforce reported failed rows, but no job id was found in the response.\n\nFull response:\n".to_string();
                error.append(stdout);
                BulkOutcome::Fail(error)
            },
        }
    } else {
        let mut message = "✔ ".to_string();
        message.append(operation);
        message.append(" complete for ");
        message.append(object);
        message.append(". Processed: ");
        message.append(decimal_text(processed as u128).as_str());
        message.append(", Failed: ");
        message.append(decimal_text(failed as u128).as_str());
        BulkOutcome::Complete(message)
    }
}

/// How a load ended, given whether the command line reports success, and what
/// it reports of the load where that can be read; none where it reports success
/// and cannot be read.
pub fn bulk_ended(
    success: bool,
    operation: &str,
    object: &str,
    stdout: &str,
    stderr: &str,
    parsed: Option<SfBulkResult>,
    failed_output_path: &str,
) -> (r: Option<BulkOutcome>)
    ensures
        match (success, parsed) {
            (false, _) => r is Some && r->Some_0@ == bulk_failure(
                operation@,
                stdout@,
                stderr@,
                failed_output_path@,
            ),
            (true, Some(result)) => r is Some && r->Some_0@ == completion(
                operation@,
                object@,
                stdout@,
                result,
                failed_output_path@,
            ),
            (true, None) => r is None,
        },
{
    if !success {
        return Some(bulk_failed(operation, stdout, stderr, failed_output_path));
    }
    match parsed {
        Some(result) => Some(
            bulk_completed(operation, object, stdout, result, failed_output_path),
        ),
        None => None,
    }
}

/// A load of which records were rejected never counts as complete.
pub proof fn law_rejected_rows_fail(
    operation: Text,
    object: Text,
    stdout: Text,
    result: SfBulkResult,
    failed_output_path: Text,
)
    ensures
        failed_count(result) > 0 <==> !(completion(
            operation,
            object,
            stdout,
            result,
            failed_output_path,
        ) is Complete),
        failed_count(result) > 0 && completed_job(result) is Some ==> completion(
            operation,
            object,
            stdout,
            result,
            failed_output_path,
        ) is SaveFailedRows,
{
}

// ---------------------------------------------------------------------------
// Rejected rows
// ---------------------------------------------------------------------------

/// The arguments that ask for the access to an org.
pub fn org_display_arguments(org: &str) -> (r: Vec<String>)
    ensures
        text::texts(r@) == seq!["org"@, "display"@, "--target-org"@, org@, "--json"@],
{
    let mut args: Vec<String> = Vec::new();
    args.push("org".to_string());
    args.push("display".to_string());
    args.push("--target-org".to_string());
    args.push(org.to_string());
    args.push("--json".to_string());
    assert(text::texts(args@) =~= seq!["org"@, "display"@, "--target-org"@, org@, "--json"@]);
    args
}

/// Why the access to an org is not known.
pub fn org_display_failure(stderr: &str) -> (r: String)
    ensures
        r@ == "Failed to get org auth details.\n\n"@ + stderr@,
{
    let mut message = "Failed to get org auth details.\n\n".to_string();
    message.append(stderr);
    message
}

/// The access to an org.
#[derive(Debug)]
pub struct OrgAccess {
    pub access_token: String,
    pub instance_url: String,
}

/// The access to an org, read from what the command line shows of it.
pub fn read_org_access(stdout: &Vec<u8>) -> (r: Result<OrgAccess, LoadError>)
    ensures
        match json::json_of_bytes(stdout@) {
            None => r matches Err(LoadError::Json(_)),
            Some(shown) => match (
                json::text_at(shown, "result"@, "accessToken"@),
                json::text_at(shown, "result"@, "instanceUrl"@),
            ) {
                (Some(token), Some(url)) => r matches Ok(access) && access.access_token@ == token
                    && access.instance_url@ == url,
                (None, _) => r matches Err(LoadError::Message(message)) && message@
                    == "Could not find accessToken from sf org display"@,
                (Some(_), None) => r matches Err(LoadError::Message(message)) && message@
                    == "Could not find instanceUrl from sf org display"@,
            },
        },
{
    let value = match parse_json_bytes(stdout) {
        Ok(value) => value,
        Err(error) => return Err(LoadError::Json(error)),
    };
    let access_token = match read_text_at(&value, "result", "accessToken") {
        Some(token) => token,
        None => return Err(
            LoadError::Message("Could not find accessToken from sf org display".to_string()),
        ),
    };
    let instance_url = match read_text_at(&value, "result", "instanceUrl") {
        Some(url) => url,
        None => return Err(
            LoadError::Message("Could not find instanceUrl from sf org display".to_string()),
        ),
    };
    Ok(OrgAccess { access_token, instance_url })
}

/// The address of the rows that a job rejected.
pub open spec fn failed_results_url(instance_url: Text, job_id: Text) -> Text {
    instance_url + "/services/data/v60.0/jobs/ingest/"@ + job_id + "/failedResults"@
}

/// The arguments that fetch the rows that a job rejected.
pub open spec fn download_arguments_of(
    access_token: Text,
    instance_url: Text,
    job_id: Text,
) -> Seq<Text> {
    seq![
        "-sS"@,
        "-H"@,
        "Authorization: Bearer "@ + access_token,
        "-H"@,
        "Accept: text/csv"@,
        failed_results_url(instance_url, job_id),
    ]
}

/// The arguments that fetch the rows that a job rejected.
pub fn download_arguments(access: &OrgAccess, job_id: &str) -> (r: Vec<String>)
    ensures
        text::texts(r@) == download_arguments_of(
            access.access_token@,
            access.instance_url@,
            job_id@,
        ),
{
    let mut authorization = "Authorization: Bearer ".to_string();
    authorization.append(access.access_token.as_str());
    let mut url = access.instance_url.clone();
    url.append("/services/data/v60.0/jobs/ingest/");
    url.append(job_id);
    url.append("/failedResults");
    let mut args: Vec<String> = Vec::new();
    args.push("-sS".to_string());
    args.push("-H".to_string());
    args.push(authorization);
    args.push("-H".to_string());
    args.push("Accept: text/csv".to_string());
    args.push(url);
    assert(text::texts(args@) =~= download_arguments_of(
        access.access_token@,
        access.instance_url@,
        job_id@,
    ));
    args
}

/// The arguments that fetch the rows that a job rejected, given what the
/// command line shows of the org.
pub fn download_failed_bulk_results(stdout: &Vec<u8>, job_id: &str) -> (r: Result<
    Vec<String>,
    LoadError,
>)
    ensures
        match json::json_of_bytes(stdout@) {
            None => r matches Err(LoadError::Json(_)),
            Some(shown) => match (
                json::text_at(shown, "result"@, "accessToken"@),
                json::text_at(shown, "result"@, "instanceUrl"@),
            ) {
                (Some(token), Some(url)) => r matches Ok(args) && text::texts(args@)
                    == download_arguments_of(token, url, job_id@),
                (None, _) => r matches Err(LoadError::Message(message)) && message@
                    == "Could not find accessToken from sf org display"@,
                (Some(_), None) => r matches Err(LoadError::Message(message)) && message@
                    == "Could not find instanceUrl from sf org display"@,
            },
        },
{
    match read_org_access(stdout) {
        Ok(access) => Ok(download_arguments(&access, job_id)),
        Err(error) => Err(error),
    }
}

/// Why rejected rows could not be fetched.
pub fn download_failure(stderr: &str) -> (r: String)
    ensures
        r@ == "Failed to download failed results.\n\n"@ + stderr@,
{
    let mut message = "Failed to download failed results.\n\n".to_string();
    message.append(stderr);
    message
}

} // verus!
