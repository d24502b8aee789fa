//! What holds of the talk with the Salesforce command line.

use vstd::prelude::*;

use crate::json;
use crate::json::Json;
use crate::salesforce;
use crate::salesforce::{BulkOutcome, Ending, SfBulkResult};
use crate::text;
use crate::text::Text;

verus! {

// ---------------------------------------------------------------------------
// What is read from an answer
// ---------------------------------------------------------------------------

/// `reply` is an object whose member `name` is the text `t`.
pub open spec fn says(reply: Json, name: Text, t: Text) -> bool {
    &&& reply matches Json::Object(members)
    &&& members.dom().contains(name)
    &&& members[name] == Json::Text(t)
}

/// `reply` is an object, and so is its member `outer`, whose member `inner` is
/// the text `t`.
pub open spec fn says_within(reply: Json, outer: Text, inner: Text, t: Text) -> bool {
    &&& reply matches Json::Object(members)
    &&& members.dom().contains(outer)
    &&& says(members[outer], inner, t)
}

/// The member `outer` of `reply` says nothing by the name of `inner`.
pub open spec fn silent_within(reply: Json, outer: Text, inner: Text) -> bool {
    forall|t: Text| !#[trigger] says_within(reply, outer, inner, t)
}

/// A text is read from an answer exactly where the answer says it.
pub proof fn law_text_read(reply: Json, outer: Text, inner: Text, t: Text)
    ensures
        json::text_member(reply, inner) == Some(t) <==> says(reply, inner, t),
        json::text_at(reply, outer, inner) == Some(t) <==> says_within(reply, outer, inner, t),
        json::text_at(reply, outer, inner) is None <==> silent_within(reply, outer, inner),
{
    if silent_within(reply, outer, inner) && json::text_at(reply, outer, inner) is Some {
        assert(says_within(reply, outer, inner, json::text_at(reply, outer, inner)->Some_0));
    }
}

/// A text that was read is the text that the answer says, and none is read
/// where it says none.
pub proof fn law_text_is_read(s: String, found: Option<Text>)
    ensures
        json::is_text(Some(s), found) <==> found == Some(s@),
        json::is_text(None, found) <==> found == None::<Text>,
        text::option_text(Some(s)) == Some(s@),
        text::option_text(None) == None::<Text>,
{
}

/// An ending holds the texts of the outcome that it is seen of.
pub proof fn law_endings_seen(message: String, job_id: String)
    ensures
        (BulkOutcome::Complete(message))@ == Ending::Complete(message@),
        (BulkOutcome::Fail(message))@ == Ending::Fail(message@),
        (BulkOutcome::SaveFailedRows { job_id, error: message })@ == Ending::SaveFailedRows(
            job_id@,
            message@,
        ),
{
}

// ---------------------------------------------------------------------------
// What the command line is asked
// ---------------------------------------------------------------------------

/// Among `args` the option `flag` is given with `value`.
pub open spec fn given(args: Seq<Text>, flag: Text, value: Text) -> bool {
    exists|i: int|
        0 <= i < args.len() - 1 && #[trigger] args[i] == flag && args[i + 1] == value
}

/// A query is run against the org and with the text that it is given, and is
/// answered in JSON.
pub proof fn law_query_arguments(org: Text, soql: Text)
    ensures
        ({
            let args = salesforce::query_arguments_of(org, soql);
            &&& args.len() == 7
            &&& args[0] == "data"@
            &&& args[1] == "query"@
            &&& given(args, "--target-org"@, org)
            &&& given(args, "--query"@, soql)
            &&& args.last() == "--json"@
        }),
{
    let args = salesforce::query_arguments_of(org, soql);
    assert(args[2] == "--target-org"@ && args[2int + 1] == org);
    assert(args[4] == "--query"@ && args[4int + 1] == soql);
}

/// Different queries, or different orgs, give different arguments.
pub proof fn law_query_arguments_differ(org: Text, soql: Text, other_org: Text, other_soql: Text)
    ensures
        salesforce::query_arguments_of(org, soql) == salesforce::query_arguments_of(
            other_org,
            other_soql,
        ) <==> org == other_org && soql == other_soql,
{
    let a = salesforce::query_arguments_of(org, soql);
    let b = salesforce::query_arguments_of(other_org, other_soql);
    if a == b {
        assert(a[3] == b[3] && a[5] == b[5]);
    }
}

/// There is a command for inserting and one for updating, and for no other
/// operation.
pub proof fn law_commands(operation: Text)
    ensures
        salesforce::command_of("insert"@) == Some("import"@),
        salesforce::command_of("update"@) == Some("update"@),
        salesforce::command_of(operation) is Some <==> operation == "insert"@ || operation
            == "update"@,
{
    reveal_strlit("insert");
    reveal_strlit("update");
    assert("insert"@[0] != "update"@[0]);
}

/// A load names the file, the object and the org that it is given, waits ten
/// minutes, takes lines as they are written, and is answered in JSON.
pub proof fn law_bulk_arguments(command: Text, org: Text, object: Text, csv_path: Text)
    ensures
        ({
            let args = salesforce::bulk_arguments_of(command, org, object, csv_path);
            &&& args.len() == 14
            &&& args[0] == "data"@
            &&& args[1] == command
            &&& args[2] == "bulk"@
            &&& given(args, "--file"@, csv_path)
            &&& given(args, "--sobject"@, object)
            &&& given(args, "--line-ending"@, "CRLF"@)
            &&& given(args, "--wait"@, "10"@)
            &&& given(args, "--target-org"@, org)
            &&& args.last() == "--json"@
        }),
{
    let args = salesforce::bulk_arguments_of(command, org, object, csv_path);
    assert(args[3] == "--file"@ && args[3int + 1] == csv_path);
    assert(args[5] == "--sobject"@ && args[5int + 1] == object);
    assert(args[7] == "--line-ending"@ && args[7int + 1] == "CRLF"@);
    assert(args[9] == "--wait"@ && args[9int + 1] == "10"@);
    assert(args[11] == "--target-org"@ && args[11int + 1] == org);
}

/// Different files, objects, orgs or commands give different arguments.
pub proof fn law_bulk_arguments_differ(
    command: Text,
    org: Text,
    object: Text,
    csv_path: Text,
    other_command: Text,
    other_org: Text,
    other_object: Text,
    other_path: Text,
)
    requires
        salesforce::bulk_arguments_of(command, org, object, csv_path)
            == salesforce::bulk_arguments_of(other_command, other_org, other_object, other_path),
    ensures
        command == other_command,
        org == other_org,
        object == other_object,
        csv_path == other_path,
{
    let a = salesforce::bulk_arguments_of(command, org, object, csv_path);
    let b = salesforce::bulk_arguments_of(other_command, other_org, other_object, other_path);
    assert(a[1] == b[1] && a[4] == b[4] && a[6] == b[6] && a[12] == b[12]);
}

/// Rejected rows are fetched with the token of the org, as CSV, from an address
/// that starts with the instance and ends with the job.
pub proof fn law_download_arguments(access_token: Text, instance_url: Text, job_id: Text)
    ensures
        ({
            let args = salesforce::download_arguments_of(access_token, instance_url, job_id);
            &&& args.len() == 6
            &&& args[0] == "-sS"@
            &&& given(args, "-H"@, "Authorization: Bearer "@ + access_token)
            &&& given(args, "-H"@, "Accept: text/csv"@)
            &&& instance_url.is_prefix_of(args.last())
            &&& args.last().skip(instance_url.len() as int) == "/services/data/v60.0/jobs/ingest/"@
                + (job_id + "/failedResults"@)
        }),
{
    let args = salesforce::download_arguments_of(access_token, instance_url, job_id);
    assert(args[1] == "-H"@ && args[1int + 1] == "Authorization: Bearer "@ + access_token);
    assert(args[3] == "-H"@ && args[3int + 1] == "Accept: text/csv"@);
    let url = args.last();
    assert(url.take(instance_url.len() as int) =~= instance_url);
    assert(url.skip(instance_url.len() as int) =~= "/services/data/v60.0/jobs/ingest/"@ + (job_id
        + "/failedResults"@));
}

/// The rejected rows of different jobs of an org have different addresses.
pub proof fn law_addresses_differ(instance_url: Text, job_id: Text, other: Text)
    ensures
        salesforce::failed_results_url(instance_url, job_id) == salesforce::failed_results_url(
            instance_url,
            other,
        ) <==> job_id == other,
{
    let a = salesforce::failed_results_url(instance_url, job_id);
    let b = salesforce::failed_results_url(instance_url, other);
    if a == b {
        let from = (instance_url + "/services/data/v60.0/jobs/ingest/"@).len() as int;
        assert(a.len() == from + job_id.len() + "/failedResults"@.len());
        assert(b.len() == from + other.len() + "/failedResults"@.len());
        assert(a.subrange(from, from + job_id.len()) =~= job_id);
        assert(b.subrange(from, from + job_id.len()) =~= other);
    }
}

// ---------------------------------------------------------------------------
// How a load ended
// ---------------------------------------------------------------------------

/// A failed load belongs to the job that the answer names under `data`; failing
/// that, to the one under `result`, where `id` comes before `jobId`.
pub proof fn law_failed_job(reply: Json, t: Text)
    ensures
        says_within(reply, "data"@, "jobId"@, t) ==> salesforce::failed_job(reply) == Some(t),
        silent_within(reply, "data"@, "jobId"@) && says_within(reply, "result"@, "id"@, t)
            ==> salesforce::failed_job(reply) == Some(t),
        silent_within(reply, "data"@, "jobId"@) && silent_within(reply, "result"@, "id"@)
            && says_within(reply, "result"@, "jobId"@, t) ==> salesforce::failed_job(reply) == Some(
            t,
        ),
        salesforce::failed_job(reply) is None <==> silent_within(reply, "data"@, "jobId"@)
            && silent_within(reply, "result"@, "id"@) && silent_within(
            reply,
            "result"@,
            "jobId"@,
        ),
{
    law_text_read(reply, "data"@, "jobId"@, t);
    law_text_read(reply, "result"@, "id"@, t);
    law_text_read(reply, "result"@, "jobId"@, t);
}

/// `message` is what a failed load is said to have failed with: what the answer
/// says, or a standing text where it says nothing.
pub open spec fn failed_with(reply: Json, message: Text) -> bool {
    ||| says(reply, "message"@, message)
    ||| {
        &&& forall|t: Text| !#[trigger] says(reply, "message"@, t)
        &&& message == "Salesforce bulk operation failed"@
    }
}

/// Where the answer of a failed load names the job, its rejected rows are
/// saved, and what is shown then is what the load failed with and where the
/// rows are.
pub proof fn law_failed_job_is_saved(
    operation: Text,
    stdout: Text,
    stderr: Text,
    path: Text,
    reply: Json,
    message: Text,
    job_id: Text,
)
    requires
        json::json_of_text(stdout) == Some(reply),
        failed_with(reply, message),
        salesforce::failed_job(reply) == Some(job_id),
    ensures
        ({
            let shown = salesforce::bulk_failure(operation, stdout, stderr, path);
            &&& shown is SaveFailedRows
            &&& shown->SaveFailedRows_0 == job_id
            &&& shown->SaveFailedRows_1 == "Salesforce bulk "@ + operation + (" failed.\n\n"@
                + message) + ("\n\nFailed rows saved to: "@ + path)
        }),
{
    law_said_message(reply, message);
    let shown = salesforce::bulk_failure(operation, stdout, stderr, path);
    assert(shown->SaveFailedRows_1 =~= "Salesforce bulk "@ + operation + (" failed.\n\n"@ + message)
        + ("\n\nFailed rows saved to: "@ + path));
}

/// What a failed load is said to have failed with is what is read.
pub proof fn law_said_message(reply: Json, message: Text)
    ensures
        failed_with(reply, message) <==> salesforce::message_or_default(
            json::text_member(reply, "message"@),
        ) == message,
{
    let read = json::text_member(reply, "message"@);
    law_text_read(reply, "message"@, "message"@, message);
    if read is Some {
        law_text_read(reply, "message"@, "message"@, read->Some_0);
        assert(says(reply, "message"@, read->Some_0));
    } else {
        assert forall|t: Text| !#[trigger] says(reply, "message"@, t) by {
            law_text_read(reply, "message"@, "message"@, t);
        }
    }
}

/// Where the answer of a failed load names no job, nothing is saved, and what
/// the load failed with is shown.
pub proof fn law_failure_without_job(
    operation: Text,
    stdout: Text,
    stderr: Text,
    path: Text,
    reply: Json,
    message: Text,
)
    requires
        json::json_of_text(stdout) == Some(reply),
        failed_with(reply, message),
        salesforce::failed_job(reply) is None,
    ensures
        salesforce::bulk_failure(operation, stdout, stderr, path) is Fail,
        salesforce::bulk_failure(operation, stdout, stderr, path)->Fail_0 == "Salesforce error:\n"@
            + message,
{
    law_said_message(reply, message);
}

/// Where the answer of a failed load cannot be read, all that was said is shown.
pub proof fn law_unreadable_failure(operation: Text, stdout: Text, stderr: Text, path: Text)
    requires
        json::json_of_text(stdout) is None,
    ensures
        ({
            let shown = salesforce::bulk_failure(operation, stdout, stderr, path);
            &&& shown is Fail
            &&& shown->Fail_0 == ("Salesforce bulk "@ + operation) + (" failed.\n\nSTDOUT:\n"@
                + stdout) + ("\n\nSTDERR:\n"@ + stderr)
        }),
{
    let shown = salesforce::bulk_failure(operation, stdout, stderr, path);
    assert(shown->Fail_0 =~= ("Salesforce bulk "@ + operation) + (" failed.\n\nSTDOUT:\n"@ + stdout)
        + ("\n\nSTDERR:\n"@ + stderr));
}

/// `n` is the first of `counts` that is there, or zero where none is.
pub open spec fn counted(counts: Seq<Option<u64>>, n: u64) -> bool {
    ||| exists|i: int|
        0 <= i < counts.len() && #[trigger] counts[i] == Some(n) && forall|j: int|
            0 <= j < i ==> #[trigger] counts[j] is None
    ||| n == 0 && forall|i: int| 0 <= i < counts.len() ==> #[trigger] counts[i] is None
}

/// How many records were processed and how many rejected is the first of the
/// counts that is there.
pub proof fn law_counts(result: SfBulkResult, n: u64)
    ensures
        counted(
            seq![
                result.number_records_processed,
                result.processed_records,
                result.successful_results,
            ],
            n,
        ) <==> salesforce::processed_count(result) == n,
        counted(
            seq![result.number_records_failed, result.failed_records, result.failed_results],
            n,
        ) <==> salesforce::failed_count(result) == n,
{
    lemma_counted(
        result.number_records_processed,
        result.processed_records,
        result.successful_results,
        n,
    );
    lemma_counted(result.number_records_failed, result.failed_records, result.failed_results, n);
}

proof fn lemma_counted(a: Option<u64>, b: Option<u64>, c: Option<u64>, n: u64)
    ensures
        counted(seq![a, b, c], n) <==> salesforce::first_count(a, b, c) == n,
{
    let counts = seq![a, b, c];
    assert(counts[0] == a && counts[1] == b && counts[2] == c);
    if salesforce::first_count(a, b, c) == n {
        if a is Some {
            assert(counts[0] == Some(n));
        } else if b is Some {
            assert(counts[1] == Some(n));
        } else if c is Some {
            assert(counts[2] == Some(n));
        }
        assert(counted(counts, n));
    }
}

/// `t` names the job of a load that ran: its identifier, or failing that its
/// job identifier.
pub open spec fn names_job(result: SfBulkResult, t: Text) -> bool {
    ||| result.id matches Some(id) && id@ == t
    ||| result.id is None && (result.job_id matches Some(id) && id@ == t)
}

/// A load that ran belongs to the job that it names, and to none where it names
/// none.
pub proof fn law_completed_job(result: SfBulkResult, t: Text)
    ensures
        salesforce::completed_job(result) == Some(t) <==> names_job(result, t),
        salesforce::completed_job(result) is None <==> result.id is None && result.job_id is None,
{
}

/// A load of which no record was rejected is complete, and is shown with what
/// was loaded and how much of it.
pub proof fn law_complete_load(
    operation: Text,
    object: Text,
    stdout: Text,
    result: SfBulkResult,
    path: Text,
    processed: u64,
)
    requires
        counted(
            seq![
                result.number_records_processed,
                result.processed_records,
                result.successful_results,
            ],
            processed,
        ),
        counted(
            seq![result.number_records_failed, result.failed_records, result.failed_results],
            0,
        ),
    ensures
        ({
            let shown = salesforce::completion(operation, object, stdout, result, path);
            &&& shown is Complete
            &&& shown->Complete_0 == ("✔ "@ + operation) + (" complete for "@ + object) + (
            ". Processed: "@ + text::decimal(processed as nat)) + ", Failed: 0"@
        }),
{
    law_counts(result, processed);
    law_counts(result, 0);
    let shown = salesforce::completion(operation, object, stdout, result, path);
    reveal_strlit(", Failed: 0");
    reveal_strlit(", Failed: ");
    reveal_with_fuel(text::decimal, 2);
    assert(text::decimal(0) =~= seq!['0']);
    assert(", Failed: 0"@ =~= ", Failed: "@ + seq!['0']);
    assert(shown->Complete_0 =~= ("✔ "@ + operation) + (" complete for "@ + object) + (
    ". Processed: "@ + text::decimal(processed as nat)) + (", Failed: "@ + seq!['0']));
}

/// The rejected rows of a load that names its job are saved, and what is shown
/// then is how many there are and where.
pub proof fn law_rejected_rows_saved(
    operation: Text,
    object: Text,
    stdout: Text,
    result: SfBulkResult,
    path: Text,
    processed: u64,
    failed: u64,
    job_id: Text,
)
    requires
        counted(
            seq![
                result.number_records_processed,
                result.processed_records,
                result.successful_results,
            ],
            processed,
        ),
        counted(
            seq![result.number_records_failed, result.failed_records, result.failed_results],
            failed,
        ),
        failed > 0,
        names_job(result, job_id),
    ensures
        ({
            let shown = salesforce::completion(operation, object, stdout, result, path);
            &&& shown is SaveFailedRows
            &&& shown->SaveFailedRows_0 == job_id
            &&& shown->SaveFailedRows_1 == ("Salesforce bulk "@ + operation) + (
            " completed with failed records.\n\nProcessed: "@ + text::decimal(processed as nat)) + (
            "\nFailed: "@ + text::decimal(failed as nat)) + ("\nFailed rows saved to: "@ + path)
        }),
{
    law_counts(result, processed);
    law_counts(result, failed);
    let shown = salesforce::completion(operation, object, stdout, result, path);
    assert(shown->SaveFailedRows_1 =~= ("Salesforce bulk "@ + operation) + (
    " completed with failed records.\n\nProcessed: "@ + text::decimal(processed as nat)) + (
    "\nFailed: "@ + text::decimal(failed as nat)) + ("\nFailed rows saved to: "@ + path));
}

/// A load with rejected rows that names no job has failed, and its whole answer
/// is shown.
pub proof fn law_rejected_rows_unknown(
    operation: Text,
    object: Text,
    stdout: Text,
    result: SfBulkResult,
    path: Text,
    failed: u64,
)
    requires
        counted(
            seq![result.number_records_failed, result.failed_records, result.failed_results],
            failed,
        ),
        failed > 0,
        result.id is None,
        result.job_id is None,
    ensures
        ({
            let shown = salesforce::completion(operation, object, stdout, result, path);
            &&& shown is Fail
            &&& shown->Fail_0.len() >= stdout.len()
            &&& shown->Fail_0.skip(shown->Fail_0.len() - stdout.len()) == stdout
            &&& shown->Fail_0.take(shown->Fail_0.len() - stdout.len())
                == "Salesforce reported failed rows, but no job id was found in the response.\n\nFull response:\n"@
        }),
{
    law_counts(result, failed);
    let before =
        "Salesforce reported failed rows, but no job id was found in the response.\n\nFull response:\n"@;
    let shown = salesforce::completion(operation, object, stdout, result, path)->Fail_0;
    assert(shown == before + stdout);
    assert(shown.skip(before.len() as int) =~= stdout);
    assert(shown.take(before.len() as int) =~= before);
}

} // verus!
