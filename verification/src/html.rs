//! HTML rendering of a report: a self-contained page with summary cards and
//! tables of the found records and deletion requests, every dynamic value
//! HTML-escaped.

use vstd::prelude::*;

use crate::models::{DeletionRequestView, PersonalRecordView};
use crate::report::{Report, ReportSummary};
use crate::text::{dec_str_of, escape_html, escape_seq, u64_to_string};

verus! {

/// The fixed document head, style sheet included.
pub open spec fn html_head_view() -> Seq<char> {
    "<!DOCTYPE html>\n<html lang=\"en\">\n<head>\n"@ + "<meta charset=\"UTF-8\">\n"@
        + "<meta name=\"viewport\" content=\"width=device-width, initial-scale=1.0\">\n"@
        + "<title>Data Breaker Report</title>\n"@ + "<style>\n"@
        + "  body { font-family: system-ui, sans-serif; max-width: 960px; margin: 2rem auto; padding: 0 1rem; color: #1a1a1a; }\n"@
        + "  h1 { border-bottom: 2px solid #333; padding-bottom: 0.5rem; }\n"@
        + "  table { border-collapse: collapse; width: 100%; margin: 1rem 0; }\n"@
        + "  th, td { border: 1px solid #ddd; padding: 0.5rem; text-align: left; }\n"@
        + "  th { background: #f5f5f5; font-weight: 600; }\n"@
        + "  tr:nth-child(even) { background: #fafafa; }\n"@
        + "  .summary { display: grid; grid-template-columns: repeat(auto-fit, minmax(180px, 1fr)); gap: 1rem; margin: 1rem 0; }\n"@
        + "  .stat { background: #f5f5f5; padding: 1rem; border-radius: 4px; }\n"@
        + "  .stat .value { font-size: 1.5rem; font-weight: 700; }\n"@
        + "  .stat .label { color: #666; font-size: 0.875rem; }\n"@ + "</style>\n"@
        + "</head>\n<body>\n"@
}

/// One summary card: a decimal value over its label.
pub open spec fn stat_view(label: Seq<char>, value: nat) -> Seq<char> {
    "<div class=\"stat\"><div class=\"value\">"@ + dec_str_of(value)
        + "</div><div class=\"label\">"@ + label + "</div></div>\n"@
}

/// The summary card grid.
pub open spec fn summary_view(s: ReportSummary) -> Seq<char> {
    "<div class=\"summary\">\n"@ + stat_view("Brokers Tracked"@, s.total_brokers as nat)
        + stat_view("Records Found"@, s.total_records as nat)
        + stat_view("Deletions Submitted"@, s.deletions_submitted as nat)
        + stat_view("Deletions Completed"@, s.deletions_completed as nat)
        + stat_view("Deletions Failed"@, s.deletions_failed as nat) + "</div>\n"@
}

/// One row of the personal-records table.
pub open spec fn record_row_view(r: PersonalRecordView) -> Seq<char> {
    "<tr><td>"@ + escape_seq(r.broker_id) + "</td><td>"@ + escape_seq(r.data_type) + "</td><td>"@
        + escape_seq(r.data_value) + "</td><td>"@ + escape_seq(r.found_at) + "</td></tr>\n"@
}

pub open spec fn record_rows_view(rs: Seq<PersonalRecordView>) -> Seq<char>
    decreases rs.len(),
{
    if rs.len() == 0 {
        Seq::empty()
    } else {
        record_rows_view(rs.drop_last()) + record_row_view(rs.last())
    }
}

/// The personal-records table; absent where nothing was found.
pub open spec fn records_section_view(rs: Seq<PersonalRecordView>) -> Seq<char> {
    if rs.len() == 0 {
        Seq::empty()
    } else {
        "<h2>Personal Records Found</h2>\n"@
            + "<table>\n<thead><tr><th>Broker</th><th>Type</th><th>Value</th><th>Found At</th></tr></thead>\n<tbody>\n"@
            + record_rows_view(rs) + "</tbody></table>\n"@
    }
}

/// One row of the deletion-requests table: the identifier is shortened to
/// its first eight characters.
pub open spec fn request_row_view(q: DeletionRequestView) -> Seq<char> {
    "<tr><td>"@ + escape_seq(q.id.subrange(0, 8)) + "</td><td>"@ + escape_seq(q.broker_id)
        + "</td><td>"@ + escape_seq(q.status) + "</td><td>"@ + escape_seq(
        match q.submitted_at {
            Some(s) => s,
            None => "-"@,
        },
    ) + "</td></tr>\n"@
}

pub open spec fn request_rows_view(qs: Seq<DeletionRequestView>) -> Seq<char>
    decreases qs.len(),
{
    if qs.len() == 0 {
        Seq::empty()
    } else {
        request_rows_view(qs.drop_last()) + request_row_view(qs.last())
    }
}

/// The deletion-requests table; absent where no request exists.
pub open spec fn requests_section_view(qs: Seq<DeletionRequestView>) -> Seq<char> {
    if qs.len() == 0 {
        Seq::empty()
    } else {
        "<h2>Deletion Requests</h2>\n"@
            + "<table>\n<thead><tr><th>ID</th><th>Broker</th><th>Status</th><th>Submitted</th></tr></thead>\n<tbody>\n"@
            + request_rows_view(qs) + "</tbody></table>\n"@
    }
}

/// The whole page.
pub open spec fn report_html_view(r: Report) -> Seq<char> {
    html_head_view() + "<h1>Data Breaker Report</h1>\n<p>Generated: "@ + r.generated_at@
        + "</p>\n"@ + summary_view(r.summary) + records_section_view(r.records.deep_view())
        + requests_section_view(r.deletion_requests.deep_view()) + "</body>\n</html>\n"@
}

/// Appends one summary card.
pub fn write_stat(html: &mut String, label: &str, value: usize)
    ensures
        final(html)@ == old(html)@ + stat_view(label@, value as nat),
{
    html.append("<div class=\"stat\"><div class=\"value\">");
    html.append(u64_to_string(value as u64).as_str());
    html.append("</div><div class=\"label\">");
    html.append(label);
    html.append("</div></div>\n");
    proof {
        assert(html@ =~= old(html)@ + stat_view(label@, value as nat));
    }
}

/// Renders the report as a self-contained HTML page, exactly as
/// `report_html_view` describes it. Every deletion-request identifier must
/// carry at least the eight characters the table shows of it.
#[verifier::rlimit(100)]
pub fn render(report: &Report) -> (r: String)
    requires
        forall|i: int|
            0 <= i < report.deletion_requests.deep_view().len() ==> (
            #[trigger] report.deletion_requests.deep_view()[i]).id.len() >= 8,
    ensures
        r@ == report_html_view(*report),
{
    let mut html = String::new();

    html.append("<!DOCTYPE html>\n<html lang=\"en\">\n<head>\n");
    html.append("<meta charset=\"UTF-8\">\n");
    html.append("<meta name=\"viewport\" content=\"width=device-width, initial-scale=1.0\">\n");
    html.append("<title>Data Breaker Report</title>\n");
    html.append("<style>\n");
    html.append(
        "  body { font-family: system-ui, sans-serif; max-width: 960px; margin: 2rem auto; padding: 0 1rem; color: #1a1a1a; }\n",
    );
    html.append("  h1 { border-bottom: 2px solid #333; padding-bottom: 0.5rem; }\n");
    html.append("  table { border-collapse: collapse; width: 100%; margin: 1rem 0; }\n");
    html.append("  th, td { border: 1px solid #ddd; padding: 0.5rem; text-align: left; }\n");
    html.append("  th { background: #f5f5f5; font-weight: 600; }\n");
    html.append("  tr:nth-child(even) { background: #fafafa; }\n");
    html.append(
        "  .summary { display: grid; grid-template-columns: repeat(auto-fit, minmax(180px, 1fr)); gap: 1rem; margin: 1rem 0; }\n",
    );
    html.append("  .stat { background: #f5f5f5; padding: 1rem; border-radius: 4px; }\n");
    html.append("  .stat .value { font-size: 1.5rem; font-weight: 700; }\n");
    html.append("  .stat .label { color: #666; font-size: 0.875rem; }\n");
    html.append("</style>\n");
    html.append("</head>\n<body>\n");
    proof {
        assert(html@ =~= html_head_view());
    }

    html.append("<h1>Data Breaker Report</h1>\n<p>Generated: ");
    html.append(report.generated_at.as_str());
    html.append("</p>\n");
    let ghost upto_title = html_head_view() + "<h1>Data Breaker Report</h1>\n<p>Generated: "@
        + report.generated_at@ + "</p>\n"@;
    proof {
        assert(html@ =~= upto_title);
    }

    html.append("<div class=\"summary\">\n");
    write_stat(&mut html, "Brokers Tracked", report.summary.total_brokers);
    write_stat(&mut html, "Records Found", report.summary.total_records);
    write_stat(&mut html, "Deletions Submitted", report.summary.deletions_submitted);
    write_stat(&mut html, "Deletions Completed", report.summary.deletions_completed);
    write_stat(&mut html, "Deletions Failed", report.summary.deletions_failed);
    html.append("</div>\n");
    let ghost upto_summary = upto_title + summary_view(report.summary);
    proof {
        assert(html@ =~= upto_summary);
    }

    let rcount = report.records.len();
    if rcount > 0 {
        html.append("<h2>Personal Records Found</h2>\n");
        html.append(
            "<table>\n<thead><tr><th>Broker</th><th>Type</th><th>Value</th><th>Found At</th></tr></thead>\n<tbody>\n",
        );
        let ghost rows_base = html@;
        let ghost rsv = report.records.deep_view();
        let mut i: usize = 0;
        while i < rcount
            invariant
                i <= rcount,
                rsv == report.records.deep_view(),
                rsv.len() == rcount,
                rcount == report.records.len(),
                html@ =~= rows_base + record_rows_view(rsv.take(i as int)),
            decreases rcount - i,
        {
            let rec = &report.records[i];
            proof {
                assert(rsv[i as int] == report.records@[i as int]@);
            }
            html.append("<tr><td>");
            html.append(escape_html(rec.broker_id.as_str()).as_str());
            html.append("</td><td>");
            html.append(escape_html(rec.data_type.as_str()).as_str());
            html.append("</td><td>");
            html.append(escape_html(rec.data_value.as_str()).as_str());
            html.append("</td><td>");
            html.append(escape_html(rec.found_at.as_str()).as_str());
            html.append("</td></tr>\n");
            proof {
                assert(rsv.take(i as int + 1).drop_last() =~= rsv.take(i as int));
                assert(rsv.take(i as int + 1).last() == rsv[i as int]);
                assert(html@ =~= rows_base + record_rows_view(rsv.take(i as int + 1)));
            }
            i = i + 1;
        }
        html.append("</tbody></table>\n");
        proof {
            assert(rsv.take(rcount as int) =~= rsv);
            assert(html@ =~= upto_summary + records_section_view(report.records.deep_view()));
        }
    } else {
        proof {
            assert(records_section_view(report.records.deep_view()) =~= Seq::<char>::empty());
            assert(html@ =~= upto_summary + records_section_view(report.records.deep_view()));
        }
    }
    let ghost upto_records = upto_summary + records_section_view(report.records.deep_view());

    let qcount = report.deletion_requests.len();
    if qcount > 0 {
        html.append("<h2>Deletion Requests</h2>\n");
        html.append(
            "<table>\n<thead><tr><th>ID</th><th>Broker</th><th>Status</th><th>Submitted</th></tr></thead>\n<tbody>\n",
        );
        let ghost rows_base = html@;
        let ghost qsv = report.deletion_requests.deep_view();
        let mut i: usize = 0;
        while i < qcount
            invariant
                i <= qcount,
                qsv == report.deletion_requests.deep_view(),
                qsv.len() == qcount,
                qcount == report.deletion_requests.len(),
                forall|j: int| 0 <= j < qsv.len() ==> (#[trigger] qsv[j]).id.len() >= 8,
                html@ =~= rows_base + request_rows_view(qsv.take(i as int)),
            decreases qcount - i,
        {
            let req = &report.deletion_requests[i];
            proof {
                assert(qsv[i as int] == report.deletion_requests@[i as int]@);
            }
            html.append("<tr><td>");
            html.append(escape_html(req.id.as_str().substring_char(0, 8)).as_str());
            html.append("</td><td>");
            html.append(escape_html(req.broker_id.as_str()).as_str());
            html.append("</td><td>");
            html.append(escape_html(req.status.as_str()).as_str());
            html.append("</td><td>");
            match &req.submitted_at {
                Some(s) => html.append(escape_html(s.as_str()).as_str()),
                None => html.append(escape_html("-").as_str()),
            }
            html.append("</td></tr>\n");
            proof {
                assert(qsv.take(i as int + 1).drop_last() =~= qsv.take(i as int));
                assert(qsv.take(i as int + 1).last() == qsv[i as int]);
                assert(html@ =~= rows_base + request_rows_view(qsv.take(i as int + 1)));
            }
            i = i + 1;
        }
        html.append("</tbody></table>\n");
        proof {
            assert(qsv.take(qcount as int) =~= qsv);
            assert(html@ =~= upto_records + requests_section_view(
                report.deletion_requests.deep_view(),
            ));
        }
    } else {
        proof {
            assert(requests_section_view(report.deletion_requests.deep_view()) =~= Seq::<
                char,
            >::empty());
            assert(html@ =~= upto_records + requests_section_view(
                report.deletion_requests.deep_view(),
            ));
        }
    }

    html.append("</body>\n</html>\n");
    proof {
        assert(html@ =~= report_html_view(*report));
    }
    html
}

} // verus!
