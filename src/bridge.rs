use vstd::prelude::*;

use crate::entities::{error_json, success_json, AnalyzeError, AnalyzeSuccess, Message};

verus! {

/// What the analyzer reported on a chain. On a rejection `html` is what the
/// analyzer's error formatter rendered for the same index and message.
pub enum Verdict {
    Accepted { semantics: String },
    Rejected { index: usize, message: String, html: String },
}

/// The plain-text banner of an accepted chain: `"<chain>" is chain`.
pub open spec fn success_plain(chain: Seq<char>) -> Seq<char> {
    seq!['"'] + chain + "\" is chain"@
}

/// The HTML banner of an accepted chain.
pub open spec fn success_html(chain: Seq<char>) -> Seq<char> {
    "<span class='right'>chain \""@ + chain + "\" belongs to the language</span>"@
}

/// Whether `index` fits the `i32` index of an error record.
pub open spec fn index_fits(index: usize) -> bool {
    index <= i32::MAX
}

/// Whether a verdict can be reported as it is.
pub open spec fn verdict_fits(v: Verdict) -> bool {
    match v {
        Verdict::Accepted { .. } => true,
        Verdict::Rejected { index, .. } => index_fits(index),
    }
}

impl AnalyzeSuccess {
    /// The success record of an accepted chain, with its two banners.
    pub fn accepted(chain: &str, semantics: String) -> (r: AnalyzeSuccess)
        ensures
            r.semantics@ == semantics@,
            r.message.plain@ == success_plain(chain@),
            r.message.html@ == success_html(chain@),
    {
        let mut plain = String::new();
        plain.append("\"");
        plain.append(chain);
        plain.append("\" is chain");
        let mut html = String::new();
        html.append("<span class='right'>chain \"");
        html.append(chain);
        html.append("\" belongs to the language</span>");
        proof {
            reveal_strlit("\"");
        }
        assert(plain@ =~= success_plain(chain@));
        assert(html@ =~= success_html(chain@));
        AnalyzeSuccess { semantics, message: Message { plain, html } }
    }
}

impl AnalyzeError {
    /// The error record of a rejected chain: the analyzer's index and
    /// message, and the formatter's HTML as it came.
    pub fn rejected(index: usize, message: &str, html: String) -> (r: AnalyzeError)
        requires
            index_fits(index),
        ensures
            r.index as int == index as int,
            r.message.plain@ == message@,
            r.message.html@ == html@,
    {
        AnalyzeError {
            index: index as i32,
            message: Message { plain: String::from_str(message), html },
        }
    }
}

/// The bridge's answer to a verdict on `chain`: the JSON text of the success
/// record on acceptance, of the error record on rejection.
pub fn respond(chain: &str, verdict: Verdict) -> (r: Result<String, String>)
    requires
        verdict_fits(verdict),
    ensures
        match verdict {
            Verdict::Accepted { semantics } => {
                &&& r is Ok
                &&& r->Ok_0@ == success_json(semantics@, success_plain(chain@), success_html(chain@))
            },
            Verdict::Rejected { index, message, html } => {
                &&& r is Err
                &&& r->Err_0@ == error_json(index as int, message@, html@)
            },
        },
{
    match verdict {
        Verdict::Accepted { semantics } => {
            let record = AnalyzeSuccess::accepted(chain, semantics);
            Ok(record.to_json())
        },
        Verdict::Rejected { index, message, html } => {
            let record = AnalyzeError::rejected(index, message.as_str(), html);
            Err(record.to_json())
        },
    }
}

/// Both banners of an accepted chain are non-empty, whatever the chain.
pub proof fn success_banners_nonempty(chain: Seq<char>)
    ensures
        success_plain(chain).len() > 0,
        success_html(chain).len() > 0,
{
    reveal_strlit("<span class='right'>chain \"");
    assert(success_plain(chain)[0] == '"');
    assert(success_html(chain).len() >= "<span class='right'>chain \""@.len());
}

} // verus!
