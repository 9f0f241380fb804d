use vstd::prelude::*;

use crate::text::{int_text, push_int, push_quoted, quoted};

verus! {

/// A rendering of one outcome, as plain text and as HTML.
pub struct Message {
    pub plain: String,
    pub html: String,
}

/// What the bridge reports when the analyzer rejects a chain.
pub struct AnalyzeError {
    /// The position in the chain where validation failed.
    pub index: i32,
    pub message: Message,
}

/// What the bridge reports when the analyzer accepts a chain.
pub struct AnalyzeSuccess {
    /// The label the analyzer gave the chain.
    pub semantics: String,
    pub message: Message,
}

/// The JSON object of a message: `{"plain":..,"html":..}`.
pub open spec fn message_json(plain: Seq<char>, html: Seq<char>) -> Seq<char> {
    "{\"plain\":"@ + quoted(plain) + ",\"html\":"@ + quoted(html) + "}"@
}

/// The JSON object of an error record: `{"index":..,"message":{..}}`.
pub open spec fn error_json(index: int, plain: Seq<char>, html: Seq<char>) -> Seq<char> {
    "{\"index\":"@ + int_text(index) + ",\"message\":"@ + message_json(plain, html) + "}"@
}

/// The JSON object of a success record: `{"semantics":..,"message":{..}}`.
pub open spec fn success_json(semantics: Seq<char>, plain: Seq<char>, html: Seq<char>) -> Seq<char> {
    "{\"semantics\":"@ + quoted(semantics) + ",\"message\":"@ + message_json(plain, html) + "}"@
}

impl Message {
    /// Appends the JSON object of this message to `out`.
    pub fn write_json(&self, out: &mut String)
        ensures
            final(out)@ == old(out)@ + message_json(self.plain@, self.html@),
    {
        out.append("{\"plain\":");
        push_quoted(out, self.plain.as_str());
        out.append(",\"html\":");
        push_quoted(out, self.html.as_str());
        out.append("}");
        assert(final(out)@ =~= old(out)@ + message_json(self.plain@, self.html@));
    }

    /// The JSON text of this message.
    pub fn to_json(&self) -> (r: String)
        ensures
            r@ == message_json(self.plain@, self.html@),
    {
        let mut out = String::new();
        self.write_json(&mut out);
        assert(out@ =~= message_json(self.plain@, self.html@));
        out
    }
}

impl AnalyzeError {
    /// The JSON text of this record, fields in declaration order.
    pub fn to_json(&self) -> (r: String)
        ensures
            r@ == error_json(self.index as int, self.message.plain@, self.message.html@),
    {
        let mut out = String::new();
        out.append("{\"index\":");
        push_int(&mut out, self.index);
        out.append(",\"message\":");
        self.message.write_json(&mut out);
        out.append("}");
        assert(out@ =~= error_json(self.index as int, self.message.plain@, self.message.html@));
        out
    }
}

impl AnalyzeSuccess {
    /// The JSON text of this record, fields in declaration order.
    pub fn to_json(&self) -> (r: String)
        ensures
            r@ == success_json(self.semantics@, self.message.plain@, self.message.html@),
    {
        let mut out = String::new();
        out.append("{\"semantics\":");
        push_quoted(&mut out, self.semantics.as_str());
        out.append(",\"message\":");
        self.message.write_json(&mut out);
        out.append("}");
        assert(out@ =~= success_json(self.semantics@, self.message.plain@, self.message.html@));
        out
    }
}

} // verus!
