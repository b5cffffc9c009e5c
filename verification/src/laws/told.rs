//! What is told of a value is what it holds, field by field.
use vstd::prelude::*;

use crate::codec::{base64_read, sha256_text};
use crate::connected_tools::tools::{fits_profile, listed_formats, ToolFormat, ToolProfile};
use crate::error::Trouble;
use crate::gateway::answer::Answer;
use crate::gateway::live::{Body, Frame, FrameData};
use crate::json::{Json, Tree};
use crate::mock::shows_picture;
use crate::pot::chain::Settlement;
use crate::pot::ledger::{PendingJob, PendingPublic};
use crate::pot::wallet::{Deposit, PotCheck};
use crate::protocol::{opt, ChatMessage, JobResult, LlmParams, ToolCall, ToolDef};
use crate::store::Db;
use crate::text::{fault_words, first_fault, parsed, NumberFault};

verus! {

broadcast use vstd::string::group_string_axioms;

// --------------------------------------------------------------------- JSON

/// A text, a number and a truth are told as they are; a list is told item by
/// item, and a record field by field, in its order.
pub proof fn law_json_is_told_as_it_is(j: Json, i: int)
    ensures
        j matches Json::Text(s) ==> j@ == Tree::Text(s@),
        j matches Json::Number(n) ==> j@ == Tree::Number(n),
        j matches Json::Negative(n) ==> j@ == Tree::Negative(n),
        j matches Json::Real(n) ==> j@ == Tree::Real(n),
        j matches Json::Bool(b) ==> j@ == Tree::Bool(b),
        j is Null ==> j@ == Tree::Null,
        j matches Json::List(v) ==> (j@ matches Tree::List(t) && t.len() == v@.len() && (0 <= i
            < t.len() ==> t[i] == v@[i]@)),
        j matches Json::Record(v) ==> (j@ matches Tree::Record(t) && t.len() == v@.len() && (0 <= i
            < t.len() ==> t[i].0 == v@[i].0@ && t[i].1 == v@[i].1@)),
{
}

/// A whole number of either sign is told as one.
pub proof fn law_whole_numbers_keep_their_sign(n: i64)
    ensures
        n >= 0 ==> (Tree::integer(n) matches Tree::Number(k) && k == n),
        n < 0 ==> Tree::integer(n) == Tree::Negative(n),
{
}

// --------------------------------------------------------------------- chats

/// A call and a tool are told by their names, with their arguments or schema.
pub proof fn law_tools_are_told_as_they_are(c: ToolCall, t: ToolDef)
    ensures
        c@.id == c.id@ && c@.name == c.name@ && c@.arguments == c.arguments@,
        t@.name == t.name@ && t@.description == opt(t.description) && t@.schema == t.input_schema@,
{
}

/// A message is told with its role, its words, its calls, what it answers and
/// its pictures.
pub proof fn law_a_message_is_told_as_it_is(m: ChatMessage, i: int)
    ensures
        m@.role == m.role@ && m@.content == m.content@ && m@.call_id == opt(m.tool_call_id),
        m@.calls.len() == m.tool_calls@.len() && m@.images.len() == m.images@.len(),
        0 <= i < m.tool_calls@.len() ==> m@.calls[i] == m.tool_calls@[i]@,
        0 <= i < m.images@.len() ==> m@.images[i] == m.images@[i]@,
{
}

/// A request is told with its model, its messages, its tools, its ceiling and
/// its temperature.
pub proof fn law_a_request_is_told_as_it_is(p: LlmParams, i: int)
    ensures
        p@.model_id == opt(p.model_id) && p@.model_hash == opt(p.model_hash),
        p@.max_tokens == p.max_tokens && p@.temperature == p.temperature,
        p@.messages.len() == p.messages@.len() && p@.tools.len() == p.tools@.len(),
        0 <= i < p.messages@.len() ==> p@.messages[i] == p.messages@[i]@,
        0 <= i < p.tools@.len() ==> p@.tools[i] == p.tools@[i]@,
{
}

/// An answer is told with its words, its calls, what it used and why it ended.
pub proof fn law_an_answer_is_told_as_it_is(a: Answer, i: int)
    ensures
        a@.text == a.text@ && a@.usage == a.usage && a@.finish == opt(a.finish),
        a@.calls.len() == a.tool_calls@.len(),
        0 <= i < a.tool_calls@.len() ==> a@.calls[i] == a.tool_calls@[i]@,
{
}

/// A frame is told with its name and what it carries.
pub proof fn law_a_frame_is_told_as_it_is(f: Frame)
    ensures
        f@.name == opt(f.name),
        f.data matches FrameData::Json(j) ==> f@.body == Body::Json(j@),
        f.data matches FrameData::Raw(s) ==> f@.body == Body::Raw(s@),
{
}

// --------------------------------------------------------------------- money

/// What is on the books of a job, of a settlement, of a ticket and of a deposit
/// is told as it stands there.
pub proof fn law_the_books_are_told_as_they_are(
    j: PendingJob,
    s: Settlement,
    t: PendingPublic,
    d: Deposit,
)
    ensures
        j@.kind == j.kind && j@.paid == j.paid && j@.sha256 == opt(j.sha256) && j@.ceiling
            == j.ceiling && j@.job_cap == j.job_cap && j@.cost == j.cost && j@.model == j.model@
            && j@.peer == j.peer@ && j@.payout == j.payout@ && j@.bond == j.bond,
        s@.tx_hash == s.tx_hash@ && s@.payout == s.payout@ && s@.cumulative == s.cumulative
            && s@.block == s.block && s@.paid_to_worker == s.paid_to_worker && s@.fee == s.fee,
        t@.worker == t.worker@ && t@.cumulative == t.cumulative && t@.deadline == t.deadline
            && t@.sig == t.sig@,
        d@.tx_hash == d.tx_hash@ && d@.amount == d.amount_micros && d@.max_per_job
            == d.max_per_job_micros && d@.max_per_day == d.max_per_day_micros && d@.block == d.block
            && d@.at == d.at && d@.url == opt(d.url),
{
}

/// What a check of the pot says is told as it stands.
pub proof fn law_a_check_is_told_as_it_is(c: PotCheck)
    ensures
        c@.ready == c.ready && c@.needs_fund == c.needs_fund && c@.reason == c.reason@ && c@.kind
            == c.kind@ && c@.cap == c.cap_micros,
{
}

// -------------------------------------------------------------------- errors

/// What went wrong is told in its own words, behind where it went wrong.
pub proof fn law_trouble_is_told_in_its_words(s: Seq<char>)
    ensures
        Trouble::Core(s).words() == s && Trouble::Invalid(s).words() == s,
        Trouble::Db(s).words() == "storage: "@ + s,
        Trouble::Io(s).words() == "io: "@ + s,
        Trouble::Json(s).words() == "json: "@ + s,
        Trouble::Net(s).words() == "network: "@ + s,
        Trouble::NotFound(s).words() == "not found: "@ + s,
{
}

/// What is no number is told as empty where it is, as too large where it holds
/// nothing but figures, and otherwise by its first wrong character.
pub proof fn law_what_is_wrong_with_a_number(s: Seq<char>)
    ensures
        first_fault(seq![], 10) == NumberFault::Empty,
        s.len() > 0 ==> first_fault(s, 10) != NumberFault::Empty,
        s.len() > 0 && s[0] != '+' && crate::text::all_digits(s, 10) && parsed(s, 10) is None
            ==> first_fault(s, 10) == NumberFault::TooLarge,
        s.len() > 0 && s[0] != '+' && !('0' <= s[0] && s[0] <= '9') ==> first_fault(s, 10)
            == NumberFault::BadDigit,
        fault_words(NumberFault::Empty) != fault_words(NumberFault::BadDigit),
{
    reveal_strlit("cannot parse integer from empty string");
    reveal_strlit("invalid digit found in string");
    assert("cannot parse integer from empty string"@[0] == 'c');
    assert("invalid digit found in string"@[0] == 'i');
    if s.len() > 0 && s[0] != '+' {
        let d = crate::text::unsigned(s);
        assert(d == s);
        if crate::text::all_digits(s, 10) {
            assert forall|i: int| !crate::text::bad_digit_at(d, 10, i) by {
                if 0 <= i < d.len() {
                    assert(crate::text::digit(d[i]) < 10);
                }
            }
        }
        if !('0' <= s[0] && s[0] <= '9') {
            assert(crate::text::digit(s[0]) >= 10);
            assert(d.take(0) =~= Seq::<char>::empty());
            assert(crate::text::value(d.take(0), 10) == 0);
            assert(crate::text::bad_digit_at(d, 10, 0));
        }
    }
}

// --------------------------------------------------------------------- tools

/// A tool's profile is that of its format, and the seven are listed in one
/// order, each once.
pub proof fn law_each_tool_has_its_profile(t: ToolProfile, brand: Seq<char>, f: ToolFormat)
    requires
        fits_profile(t, brand),
    ensures
        t.key@ == t.format.key(brand),
        t.format == ToolFormat::Codex ==> t.binary@ == "codex"@ && t.display_name@ == "Codex"@,
        t.format == ToolFormat::OpenCode ==> t.binary@ == "opencode"@ && t.display_name@
            == "OpenCode"@,
        t.format == ToolFormat::Pi ==> t.binary@ == "pi"@ && t.display_name@ == "pi"@,
        t.format == ToolFormat::Crush ==> t.binary@ == "crush"@ && t.display_name@ == "Crush"@,
        t.format == ToolFormat::Goose ==> t.binary@ == "goose"@ && t.display_name@ == "Goose"@,
        t.format == ToolFormat::Zed ==> t.binary@ == "zed"@ && t.display_name@ == "Zed"@,
        t.format == ToolFormat::ClaudeCode ==> t.binary@ == crate::text::lower(brand)
            && t.display_name@ == brand + " Code"@,
        listed_formats().contains(f),
        listed_formats().no_duplicates(),
{
    let l = listed_formats();
    assert(l[0] == ToolFormat::Codex && l[1] == ToolFormat::ClaudeCode && l[2]
        == ToolFormat::OpenCode && l[3] == ToolFormat::Pi && l[4] == ToolFormat::Crush && l[5]
        == ToolFormat::Goose && l[6] == ToolFormat::Zed);
}

/// The worker in this process is asked for by the setting, or by force.
pub proof fn law_when_the_worker_here_is_wanted(db: Db, forced: bool)
    ensures
        db.wants_mock(true),
        db.setting("mock_worker"@) == Some("true"@) ==> db.wants_mock(forced),
        db.setting("mock_worker"@) is None ==> !db.wants_mock(false),
        db.setting("mock_worker"@) == Some("false"@) ==> !db.wants_mock(false),
{
    reveal_strlit("true");
    reveal_strlit("false");
    assert("true"@.len() == 4 && "false"@.len() == 5);
}

/// A picture's result holds its bytes, to be read back, and their hash.
pub proof fn law_a_picture_reads_back(r: JobResult, png: Seq<u8>)
    requires
        shows_picture(r, png),
    ensures
        r.image_path_or_b64 matches Some(b) && base64_read(b@) == Some(png),
        r.sha256@ == sha256_text(png),
        r.text is None && r.tool_calls@.len() == 0,
{
}

} // verus!
