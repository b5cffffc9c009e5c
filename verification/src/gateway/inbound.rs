//! Turning the request shapes other programs speak into one chat request.
//!
//! Anthropic's Messages, OpenAI's chat completions and OpenAI's Responses all
//! come down to the same thing: a conversation, the tools on offer, and a
//! ceiling.
use vstd::prelude::*;

use crate::json::{copy_list, json_written, print, trees, Json, Tree};
use crate::protocol::{
    calls, copy_opt, lemma_turns_push, opt, tools, turns, Ask, Call, ChatMessage,
    LlmParams, Tool, ToolCall, ToolDef, Turn,
};
use crate::text::{
    blank, concat3, contains, has_prefix, is_blank, join, joined, lemma_contains_middle,
    lemma_contains_trans, lemma_prefix_contained, lemma_prefix_trans, lemma_texts_push, same,
    starts_with, texts, trim, trimmed,
};

verus! {

broadcast use vstd::string::group_string_axioms;

/// The ceiling on an answer when the client names none.
pub const DEFAULT_MAX_TOKENS: u32 = 16_384;

/// A request that cannot be answered, and why.
#[derive(Debug, PartialEq)]
pub struct BadRequest(pub String);

/// What every request shape boils down to.
#[derive(Debug, PartialEq)]
pub struct ChatRequest {
    pub model: String,
    pub params: LlmParams,
    pub stream: bool,
}

// ---------------------------------------------------------------- content

pub open spec fn or_text(o: Option<Seq<char>>, other: Seq<char>) -> Seq<char> {
    match o {
        Some(s) => s,
        None => other,
    }
}

/// A field's text, or another where it holds none.
fn text_or(j: &Json, key: &str, other: &str) -> (r: String)
    ensures
        r@ == or_text(j@.text_at(key@), other@),
{
    match j.text_at(key) {
        Some(s) => s.clone(),
        None => other.to_string(),
    }
}

/// Whether a field holds exactly this text.
pub open spec fn says(t: Tree, key: Seq<char>, word: Seq<char>) -> bool {
    t.text_at(key) == Some(word)
}

fn field_says(j: &Json, key: &str, word: &str) -> (r: bool)
    ensures
        r == says(j@, key@, word@),
{
    match j.text_at(key) {
        Some(s) => same(s.as_str(), word),
        None => false,
    }
}

/// The words of a content block, when it has any.
pub open spec fn block_words(b: Tree) -> Option<Seq<char>> {
    let t = if says(b, "type"@, "text"@) {
        b.text_at("text"@)
    } else {
        b.text()
    };
    match t {
        Some(s) if s.len() > 0 => Some(s),
        _ => None,
    }
}

/// The same for the Responses shape, which spells the block types out.
pub open spec fn item_words(b: Tree) -> Option<Seq<char>> {
    let t = if says(b, "type"@, "input_text"@) || says(b, "type"@, "output_text"@) || says(
        b,
        "type"@,
        "text"@,
    ) {
        b.text_at("text"@)
    } else {
        b.text()
    };
    match t {
        Some(s) if s.len() > 0 => Some(s),
        _ => None,
    }
}

/// The words of all blocks that have any.
pub open spec fn all_words(blocks: Seq<Tree>, spelled: bool) -> Seq<Seq<char>>
    decreases blocks.len(),
{
    if blocks.len() == 0 {
        seq![]
    } else {
        let rest = all_words(blocks.drop_last(), spelled);
        let words = if spelled {
            item_words(blocks.last())
        } else {
            block_words(blocks.last())
        };
        match words {
            Some(s) => rest.push(s),
            None => rest,
        }
    }
}

/// Content as one text: a text as it is, blocks with a blank line between
/// them, anything else as JSON.
pub open spec fn flat(content: Tree, spelled: bool) -> Seq<char> {
    match content {
        Tree::Text(s) => s,
        Tree::List(blocks) => joined(all_words(blocks, spelled), "\n\n"@),
        Tree::Null => seq![],
        _ => json_written(content),
    }
}

fn words_of_block(b: &Json) -> (r: Option<String>)
    ensures
        opt(r) == block_words(b@),
{
    let t = if field_says(b, "type", "text") {
        b.text_at("text")
    } else {
        b.as_text()
    };
    match t {
        Some(s) if !s.as_str().is_empty() => Some(s.clone()),
        _ => None,
    }
}

fn words_of_item(b: &Json) -> (r: Option<String>)
    ensures
        opt(r) == item_words(b@),
{
    let t = if field_says(b, "type", "input_text") || field_says(b, "type", "output_text")
        || field_says(b, "type", "text") {
        b.text_at("text")
    } else {
        b.as_text()
    };
    match t {
        Some(s) if !s.as_str().is_empty() => Some(s.clone()),
        _ => None,
    }
}

fn flatten(content: &Json, spelled: bool) -> (r: String)
    ensures
        r@ == flat(content@, spelled),
{
    if let Some(blocks) = content.as_list() {
        let ghost all = trees(blocks@);
        let mut found: Vec<String> = Vec::new();
        let mut i: usize = 0;
        assert(texts(found@) =~= all_words(all.take(0), spelled));
        while i < blocks.len()
            invariant
                i <= blocks@.len(),
                all == trees(blocks@),
                texts(found@) == all_words(all.take(i as int), spelled),
            decreases blocks@.len() - i,
        {
            let ghost now = all.take(i as int + 1);
            assert(now.drop_last() =~= all.take(i as int));
            assert(now.last() == blocks@[i as int]@);
            let words = if spelled {
                words_of_item(&blocks[i])
            } else {
                words_of_block(&blocks[i])
            };
            if let Some(s) = words {
                proof {
                    lemma_texts_push(found@, s);
                }
                found.push(s);
            }
            i = i + 1;
        }
        assert(all.take(i as int) =~= all);
        return join(&found, "\n\n");
    }
    match content {
        Json::Text(s) => s.clone(),
        Json::Null => String::new(),
        other => print(other),
    }
}

/// Content as one text.
pub fn flatten_text(content: &Json) -> (r: String)
    ensures
        r@ == flat(content@, false),
{
    flatten(content, false)
}

/// The same where the block types are spelled out, as Responses does.
pub fn flatten_responses_text(content: &Json) -> (r: String)
    ensures
        r@ == flat(content@, true),
{
    flatten(content, true)
}

/// A URL that carries its own bytes.
pub open spec fn carried(url: Option<Seq<char>>) -> Option<Seq<char>> {
    match url {
        Some(u) if starts_with(u, "data:"@) => Some(u),
        _ => None,
    }
}

/// The picture a block carries, as a `data:` URL. A link is not followed: it
/// counts as no picture.
pub open spec fn block_picture(b: Tree) -> Option<Seq<char>> {
    if says(b, "type"@, "image"@) {
        match b.get("source"@) {
            None => None,
            Some(source) => if says(source, "type"@, "base64"@) {
                match source.text_at("data"@) {
                    None => None,
                    Some(data) => Some(
                        "data:"@ + or_text(source.text_at("media_type"@), "image/png"@)
                            + ";base64,"@ + data,
                    ),
                }
            } else {
                carried(source.text_at("url"@))
            },
        }
    } else if says(b, "type"@, "image_url"@) {
        match b.get("image_url"@) {
            None => None,
            Some(at) => carried(at.text_at("url"@)),
        }
    } else {
        None
    }
}

/// The picture of a Responses block, whose URL is not nested.
pub open spec fn item_picture(b: Tree) -> Option<Seq<char>> {
    if says(b, "type"@, "input_image"@) {
        carried(b.text_at("image_url"@))
    } else {
        None
    }
}

pub open spec fn all_pictures(blocks: Seq<Tree>, spelled: bool) -> Seq<Seq<char>>
    decreases blocks.len(),
{
    if blocks.len() == 0 {
        seq![]
    } else {
        let rest = all_pictures(blocks.drop_last(), spelled);
        let picture = if spelled {
            item_picture(blocks.last())
        } else {
            block_picture(blocks.last())
        };
        match picture {
            Some(u) => rest.push(u),
            None => rest,
        }
    }
}

fn carried_url(url: Option<&String>) -> (r: Option<String>)
    ensures
        opt(r) == carried(
            match url {
                Some(u) => Some(u@),
                None => None,
            },
        ),
{
    match url {
        Some(u) if has_prefix(u.as_str(), "data:") => Some(u.clone()),
        _ => None,
    }
}

fn picture_of_block(b: &Json) -> (r: Option<String>)
    ensures
        opt(r) == block_picture(b@),
{
    if field_says(b, "type", "image") {
        match b.get("source") {
            None => None,
            Some(source) => if field_says(source, "type", "base64") {
                match source.text_at("data") {
                    None => None,
                    Some(data) => {
                        let media = text_or(source, "media_type", "image/png");
                        let mut url = concat3("data:", media.as_str(), ";base64,");
                        url.append(data.as_str());
                        Some(url)
                    },
                }
            } else {
                carried_url(source.text_at("url"))
            },
        }
    } else if field_says(b, "type", "image_url") {
        match b.get("image_url") {
            None => None,
            Some(at) => carried_url(at.text_at("url")),
        }
    } else {
        None
    }
}

fn picture_of_item(b: &Json) -> (r: Option<String>)
    ensures
        opt(r) == item_picture(b@),
{
    if field_says(b, "type", "input_image") {
        carried_url(b.text_at("image_url"))
    } else {
        None
    }
}

fn pictures(content: &Json, spelled: bool) -> (r: Vec<String>)
    ensures
        texts(r@) == all_pictures(content@.items(), spelled),
{
    let mut found: Vec<String> = Vec::new();
    if let Some(blocks) = content.as_list() {
        let ghost all = trees(blocks@);
        let mut i: usize = 0;
        assert(texts(found@) =~= all_pictures(all.take(0), spelled));
        while i < blocks.len()
            invariant
                i <= blocks@.len(),
                all == trees(blocks@),
                texts(found@) == all_pictures(all.take(i as int), spelled),
            decreases blocks@.len() - i,
        {
            let ghost now = all.take(i as int + 1);
            assert(now.drop_last() =~= all.take(i as int));
            assert(now.last() == blocks@[i as int]@);
            let picture = if spelled {
                picture_of_item(&blocks[i])
            } else {
                picture_of_block(&blocks[i])
            };
            if let Some(u) = picture {
                proof {
                    lemma_texts_push(found@, u);
                }
                found.push(u);
            }
            i = i + 1;
        }
        assert(all.take(i as int) =~= all);
    } else {
        assert(texts(found@) =~= seq![]);
    }
    found
}

/// The pictures in a content array, as `data:` URLs.
pub fn images_in(content: &Json) -> (r: Vec<String>)
    ensures
        texts(r@) == all_pictures(content@.items(), false),
{
    pictures(content, false)
}

pub fn responses_images_in(content: &Json) -> (r: Vec<String>)
    ensures
        texts(r@) == all_pictures(content@.items(), true),
{
    pictures(content, true)
}

/// Every picture handed to a worker carries its own bytes: whatever a sender
/// put in a request, no address in it is ever followed.
pub proof fn law_pictures_carry_their_bytes(blocks: Seq<Tree>, spelled: bool)
    ensures
        forall|i: int|
            0 <= i < all_pictures(blocks, spelled).len() ==> starts_with(
                #[trigger] all_pictures(blocks, spelled)[i],
                "data:"@,
            ),
    decreases blocks.len(),
{
    if blocks.len() > 0 {
        law_pictures_carry_their_bytes(blocks.drop_last(), spelled);
        let b = blocks.last();
        if !spelled && says(b, "type"@, "image"@) && b.get("source"@) is Some {
            let source = b.get("source"@)->0;
            let data = or_text(source.text_at("data"@), seq![]);
            let media = or_text(source.text_at("media_type"@), "image/png"@);
            let url = "data:"@ + media + ";base64,"@ + data;
            assert(url.take("data:"@.len() as int) =~= "data:"@);
        }
        let rest = all_pictures(blocks.drop_last(), spelled);
        let all = all_pictures(blocks, spelled);
        assert forall|i: int| 0 <= i < all.len() implies starts_with(#[trigger] all[i], "data:"@) by {
            if i < rest.len() {
                assert(all[i] == rest[i]);
            }
        }
    }
}


// --------------------------------------------------------- system messages

/// A system instruction as it reads inside a user turn.
pub open spec fn wrapped(text: Seq<char>) -> Seq<char> {
    "<system-reminder>\n"@ + trimmed(text) + "\n</system-reminder>"@
}

pub fn wrap_system(text: &str) -> (r: String)
    ensures
        r@ == wrapped(text@),
{
    concat3("<system-reminder>\n", trim(text).as_str(), "\n</system-reminder>")
}

impl Turn {
    /// The turn with other words.
    pub open spec fn saying(self, content: Seq<char>) -> Turn {
        Turn { content, ..self }
    }

    pub open spec fn is_system(self) -> bool {
        self.role == "system"@
    }

    pub open spec fn is_user(self) -> bool {
        self.role == "user"@
    }
}

/// How many system messages a conversation opens with.
pub open spec fn opening(ts: Seq<Turn>) -> int
    decreases ts.len(),
{
    if ts.len() > 0 && ts[0].is_system() {
        1 + opening(ts.drop_first())
    } else {
        0
    }
}

/// The rest of a conversation with its system messages folded away: each goes
/// into the user turn just before it, or else the one just after, or else
/// becomes a user turn of its own. `done` is what stands before already.
pub open spec fn folded(done: Seq<Turn>, rest: Seq<Turn>) -> Seq<Turn>
    decreases rest.len(),
{
    if rest.len() == 0 {
        done
    } else if !rest[0].is_system() {
        folded(done.push(rest[0]), rest.drop_first())
    } else {
        let text = wrapped(rest[0].content);
        let after = rest.drop_first();
        if done.len() > 0 && done.last().is_user() {
            let last = done.last();
            folded(done.update(done.len() - 1, last.saying(last.content + "\n\n"@ + text)), after)
        } else if after.len() > 0 && after[0].is_user() {
            folded(
                done,
                after.update(0, after[0].saying(text + "\n\n"@ + after[0].content)),
            )
        } else {
            folded(done.push(Turn::plain("user"@, text)), after)
        }
    }
}

/// A conversation whose only system messages are the ones it opens with.
pub open spec fn late_systems_folded(ts: Seq<Turn>) -> Seq<Turn> {
    let n = opening(ts);
    ts.take(n) + folded(seq![], ts.skip(n))
}

pub proof fn lemma_opening(ts: Seq<Turn>)
    ensures
        0 <= opening(ts) <= ts.len(),
        forall|i: int| 0 <= i < opening(ts) ==> (#[trigger] ts[i]).is_system(),
        opening(ts) < ts.len() ==> !ts[opening(ts)].is_system(),
    decreases ts.len(),
{
    if ts.len() > 0 && ts[0].is_system() {
        lemma_opening(ts.drop_first());
        assert forall|i: int| 0 <= i < opening(ts) implies (#[trigger] ts[i]).is_system() by {
            if i > 0 {
                assert(ts[i] == ts.drop_first()[i - 1]);
            }
        }
        if opening(ts) < ts.len() {
            assert(ts[opening(ts)] == ts.drop_first()[opening(ts) - 1]);
        }
    }
}

/// A chat template takes a system message in first position only: after
/// folding none stands after a turn of another role.
pub proof fn law_no_system_message_is_late(ts: Seq<Turn>)
    ensures
        forall|i: int|
            opening(ts) <= i < late_systems_folded(ts).len()
                ==> !(#[trigger] late_systems_folded(ts)[i]).is_system(),
        forall|i: int|
            0 <= i < opening(ts) ==> #[trigger] late_systems_folded(ts)[i] == ts[i],
{
    lemma_opening(ts);
    lemma_folded_has_no_system(seq![], ts.skip(opening(ts)));
}

proof fn lemma_folded_has_no_system(done: Seq<Turn>, rest: Seq<Turn>)
    requires
        forall|i: int| 0 <= i < done.len() ==> !(#[trigger] done[i]).is_system(),
    ensures
        forall|i: int|
            0 <= i < folded(done, rest).len() ==> !(#[trigger] folded(done, rest)[i]).is_system(),
    decreases rest.len(),
{
    reveal_strlit("user");
    reveal_strlit("system");
    assert("user"@.len() != "system"@.len());
    if rest.len() > 0 {
        if !rest[0].is_system() {
            lemma_folded_has_no_system(done.push(rest[0]), rest.drop_first());
            assert(folded(done, rest) == folded(done.push(rest[0]), rest.drop_first()));
        } else {
            let text = wrapped(rest[0].content);
            let after = rest.drop_first();
            if done.len() > 0 && done.last().is_user() {
                let last = done.last();
                let next = done.update(
                    done.len() - 1,
                    last.saying(last.content + "\n\n"@ + text),
                );
                lemma_folded_has_no_system(next, after);
                assert(folded(done, rest) == folded(next, after));
            } else if after.len() > 0 && after[0].is_user() {
                let next = after.update(0, after[0].saying(text + "\n\n"@ + after[0].content));
                lemma_folded_has_no_system(done, next);
                assert(folded(done, rest) == folded(done, next));
            } else {
                let next = done.push(Turn::plain("user"@, text));
                lemma_folded_has_no_system(next, after);
                assert(folded(done, rest) == folded(next, after));
            }
        }
    }
}

proof fn lemma_folded_plain(done: Seq<Turn>, rest: Seq<Turn>)
    requires
        forall|i: int| 0 <= i < rest.len() ==> !(#[trigger] rest[i]).is_system(),
    ensures
        folded(done, rest) == done + rest,
    decreases rest.len(),
{
    if rest.len() > 0 {
        let after = rest.drop_first();
        assert forall|i: int| 0 <= i < after.len() implies !(#[trigger] after[i]).is_system() by {
            assert(after[i] == rest[i + 1]);
        }
        lemma_folded_plain(done.push(rest[0]), after);
        assert(done.push(rest[0]) + after =~= done + rest);
    } else {
        assert(done + rest =~= done);
    }
}

/// A conversation whose system messages all stand at its opening is left as
/// it is.
pub proof fn law_opening_systems_are_left_alone(ts: Seq<Turn>)
    requires
        forall|i: int| opening(ts) <= i < ts.len() ==> !(#[trigger] ts[i]).is_system(),
    ensures
        late_systems_folded(ts) == ts,
{
    lemma_opening(ts);
    let rest = ts.skip(opening(ts));
    assert forall|i: int| 0 <= i < rest.len() implies !(#[trigger] rest[i]).is_system() by {
        assert(rest[i] == ts[opening(ts) + i]);
    }
    lemma_folded_plain(seq![], rest);
    assert(late_systems_folded(ts) =~= ts);
}

/// How the words of a turn read once it has been folded or left alone.
pub open spec fn kept_words(t: Turn) -> Seq<char> {
    if t.is_system() {
        wrapped(t.content)
    } else {
        t.content
    }
}

/// Whether some turn holds these words.
pub open spec fn somewhere(ts: Seq<Turn>, words: Seq<char>) -> bool {
    exists|j: int| 0 <= j < ts.len() && #[trigger] contains(ts[j].content, words)
}

/// Folding drops nothing: the words of every turn after the opening, system
/// instructions among them, are in the conversation that comes out.
pub proof fn law_folding_keeps_every_word(ts: Seq<Turn>, i: int)
    requires
        opening(ts) <= i < ts.len(),
    ensures
        somewhere(late_systems_folded(ts), kept_words(ts[i])),
{
    lemma_opening(ts);
    let n = opening(ts);
    let rest = ts.skip(n);
    lemma_folded_keeps(seq![], rest);
    assert(rest[i - n] == ts[i]);
    let f = folded(seq![], rest);
    let words = kept_words(ts[i]);
    assert(somewhere(f, kept_words(rest[i - n])));
    let j = choose|j: int| 0 <= j < f.len() && #[trigger] contains(f[j].content, words);
    assert(late_systems_folded(ts)[n + j] == f[j]);
}

/// `f` goes on from every turn of `done` and holds the words of every turn
/// of `rest`.
spec fn keeps(done: Seq<Turn>, rest: Seq<Turn>, f: Seq<Turn>) -> bool {
    &&& done.len() <= f.len()
    &&& forall|k: int|
        0 <= k < done.len() ==> starts_with((#[trigger] f[k]).content, done[k].content)
    &&& forall|i: int| 0 <= i < rest.len() ==> somewhere(f, kept_words(#[trigger] rest[i]))
}

proof fn lemma_keeps_own_turn(done: Seq<Turn>, rest: Seq<Turn>, own: Turn, f: Seq<Turn>)
    requires
        rest.len() > 0,
        own.content == kept_words(rest[0]),
        keeps(done.push(own), rest.drop_first(), f),
    ensures
        keeps(done, rest, f),
{
    let n = done.len() as int;
    let next = done.push(own);
    assert(next[n] == own);
    assert(starts_with(f[n].content, next[n].content));
    lemma_prefix_contained(f[n].content, own.content);
    assert(somewhere(f, kept_words(rest[0])));
    assert forall|k: int| 0 <= k < done.len() implies starts_with(
        (#[trigger] f[k]).content,
        done[k].content,
    ) by {
        assert(next[k] == done[k]);
    }
    assert forall|i: int| 0 <= i < rest.len() implies somewhere(
        f,
        kept_words(#[trigger] rest[i]),
    ) by {
        if i > 0 {
            assert(rest.drop_first()[i - 1] == rest[i]);
        }
    }
}

proof fn lemma_keeps_in_turn_before(
    done: Seq<Turn>,
    rest: Seq<Turn>,
    more: Seq<char>,
    f: Seq<Turn>,
)
    requires
        rest.len() > 0,
        done.len() > 0,
        keeps(
            done.update(
                done.len() - 1,
                done.last().saying(done.last().content + more + kept_words(rest[0])),
            ),
            rest.drop_first(),
            f,
        ),
    ensures
        keeps(done, rest, f),
{
    let n = done.len() - 1;
    let said = done.last().content;
    let text = kept_words(rest[0]);
    let whole = said + more + text;
    let next = done.update(n, done.last().saying(whole));
    assert(next[n].content == whole);
    assert(whole.take(said.len() as int) =~= said);
    assert(starts_with(whole, said));
    assert(starts_with(f[n].content, next[n].content));
    lemma_prefix_trans(f[n].content, whole, said);
    lemma_prefix_contained(f[n].content, whole);
    lemma_contains_middle(said + more, text, seq![]);
    assert(said + more + text + Seq::<char>::empty() =~= whole);
    lemma_contains_trans(f[n].content, whole, text);
    assert(somewhere(f, text));
    assert forall|k: int| 0 <= k < done.len() implies starts_with(
        (#[trigger] f[k]).content,
        done[k].content,
    ) by {
        if k < n {
            assert(next[k] == done[k]);
        }
    }
    assert forall|i: int| 0 <= i < rest.len() implies somewhere(
        f,
        kept_words(#[trigger] rest[i]),
    ) by {
        if i > 0 {
            assert(rest.drop_first()[i - 1] == rest[i]);
        }
    }
}

proof fn lemma_keeps_in_turn_after(
    done: Seq<Turn>,
    rest: Seq<Turn>,
    more: Seq<char>,
    f: Seq<Turn>,
)
    requires
        rest.len() > 1,
        !rest[1].is_system(),
        keeps(
            done,
            rest.drop_first().update(
                0,
                rest[1].saying(kept_words(rest[0]) + more + rest[1].content),
            ),
            f,
        ),
    ensures
        keeps(done, rest, f),
{
    let text = kept_words(rest[0]);
    let said = rest[1].content;
    let whole = text + more + said;
    let next = rest.drop_first().update(0, rest[1].saying(whole));
    assert(kept_words(next[0]) == whole);
    assert(somewhere(f, kept_words(next[0])));
    let j = choose|j: int| 0 <= j < f.len() && #[trigger] contains(f[j].content, whole);
    lemma_contains_middle(seq![], text, more + said);
    assert(Seq::<char>::empty() + text + (more + said) =~= whole);
    lemma_contains_trans(f[j].content, whole, text);
    lemma_contains_middle(text + more, said, seq![]);
    assert(text + more + said + Seq::<char>::empty() =~= whole);
    lemma_contains_trans(f[j].content, whole, said);
    assert forall|i: int| 0 <= i < rest.len() implies somewhere(
        f,
        kept_words(#[trigger] rest[i]),
    ) by {
        if i > 1 {
            assert(next[i - 1] == rest[i]);
            assert(somewhere(f, kept_words(next[i - 1])));
        }
    }
}

proof fn lemma_folded_keeps(done: Seq<Turn>, rest: Seq<Turn>)
    ensures
        keeps(done, rest, folded(done, rest)),
    decreases rest.len(),
{
    reveal_strlit("user");
    reveal_strlit("system");
    assert("user"@.len() != "system"@.len());
    let f = folded(done, rest);
    if rest.len() == 0 {
        assert forall|k: int| 0 <= k < done.len() implies starts_with(
            (#[trigger] f[k]).content,
            done[k].content,
        ) by {
            assert(done[k].content.take(done[k].content.len() as int) =~= done[k].content);
        }
    } else {
        let after = rest.drop_first();
        let text = wrapped(rest[0].content);
        if !rest[0].is_system() {
            lemma_folded_keeps(done.push(rest[0]), after);
            lemma_keeps_own_turn(done, rest, rest[0], f);
        } else if done.len() > 0 && done.last().is_user() {
            let last = done.last();
            lemma_folded_keeps(
                done.update(done.len() - 1, last.saying(last.content + "\n\n"@ + text)),
                after,
            );
            lemma_keeps_in_turn_before(done, rest, "\n\n"@, f);
        } else if after.len() > 0 && after[0].is_user() {
            lemma_folded_keeps(
                done,
                after.update(0, after[0].saying(text + "\n\n"@ + after[0].content)),
            );
            lemma_keeps_in_turn_after(done, rest, "\n\n"@, f);
        } else {
            let own = Turn::plain("user"@, text);
            lemma_folded_keeps(done.push(own), after);
            lemma_keeps_own_turn(done, rest, own, f);
        }
    }
}

/// Moves every system instruction but the opening ones into a user turn,
/// marked as what it is and in its place.
pub fn fold_late_system_messages(messages: Vec<ChatMessage>) -> (r: Vec<ChatMessage>)
    ensures
        turns(r@) == late_systems_folded(turns(messages@)),
{
    let ghost ts = turns(messages@);
    let mut rest: Vec<ChatMessage> = messages;
    let mut first: Vec<ChatMessage> = Vec::new();
    let mut done: Vec<ChatMessage> = Vec::new();
    let mut n: usize = 0;
    proof {
        lemma_opening(ts);
    }
    assert(ts.skip(0) =~= ts);
    while n < rest.len() && same(rest[n].role.as_str(), "system")
        invariant
            n <= rest@.len(),
            turns(rest@) == ts,
            opening(ts) == n + opening(ts.skip(n as int)),
            n == first@.len(),
            turns(first@) == ts.take(n as int),
        decreases rest@.len() - n,
    {
        let m = rest[n].copy();
        proof {
            lemma_turns_push(first@, m);
            assert(ts.skip(n as int).drop_first() =~= ts.skip(n as int + 1));
            assert(ts.take(n as int + 1) =~= ts.take(n as int).push(ts[n as int]));
        }
        first.push(m);
        n = n + 1;
    }
    assert(opening(ts) == n);
    let mut i: usize = n;
    let ghost goal = folded(seq![], ts.skip(n as int));
    assert(turns(done@) =~= seq![]);
    while i < rest.len()
        invariant
            n <= i <= rest@.len(),
            goal == folded(turns(done@), turns(rest@).skip(i as int)),
        decreases rest@.len() - i,
    {
        let ghost before = turns(rest@);
        let ghost tail = before.skip(i as int);
        assert(tail[0] == rest@[i as int]@);
        assert(tail.drop_first() =~= before.skip(i as int + 1));
        let m = rest[i].copy();
        if !same(m.role.as_str(), "system") {
            proof {
                lemma_turns_push(done@, m);
            }
            done.push(m);
        } else {
            let text = wrap_system(m.content.as_str());
            let k: usize = done.len();
            if k > 0 && same(done[k - 1].role.as_str(), "user") {
                let mut last = done[k - 1].copy();
                last.content = concat3(last.content.as_str(), "\n\n", text.as_str());
                let ghost old_done = turns(done@);
                done.set(k - 1, last);
                assert(turns(done@) =~= old_done.update(k - 1, last@));
            } else if i + 1 < rest.len() && same(rest[i + 1].role.as_str(), "user") {
                let mut next = rest[i + 1].copy();
                next.content = concat3(text.as_str(), "\n\n", next.content.as_str());
                rest.set(i + 1, next);
                assert(turns(rest@).skip(i as int + 1) =~= tail.drop_first().update(0, next@));
            } else {
                let own = ChatMessage::new("user", text);
                proof {
                    lemma_turns_push(done@, own);
                }
                done.push(own);
            }
        }
        i = i + 1;
    }
    assert(turns(rest@).skip(i as int) =~= seq![]);
    let ghost head = first@;
    let ghost folded_part = done@;
    first.append(&mut done);
    assert(turns(first@) =~= turns(head) + turns(folded_part));
    first
}


// ------------------------------------------------------------------- tools

/// The request shapes that are understood.
#[derive(Debug, Clone, Copy, PartialEq, Eq, Structural)]
pub enum Shape {
    /// Anthropic's Messages.
    Anthropic,
    /// OpenAI's chat completions.
    OpenAi,
    /// OpenAI's Responses.
    Responses,
}

/// The schema of a tool that takes any object.
pub open spec fn any_object() -> Tree {
    Tree::record().with("type"@, Tree::Text("object"@))
}

pub open spec fn or_tree(o: Option<Tree>, other: Tree) -> Tree {
    match o {
        Some(t) => t,
        None => other,
    }
}

/// A tool a worker's model can be given. Anthropic's server-side tools come
/// without a schema: no worker can run them, so they are left out.
pub open spec fn tool_of(shape: Shape, t: Tree) -> Option<Tool> {
    match shape {
        Shape::Anthropic => match (t.text_at("name"@), t.get("input_schema"@)) {
            (Some(name), Some(schema)) if schema is Record => Some(
                Tool { name, description: t.text_at("description"@), schema },
            ),
            _ => None,
        },
        Shape::OpenAi => match t.get("function"@) {
            None => None,
            Some(f) => match f.text_at("name"@) {
                None => None,
                Some(name) => Some(
                    Tool {
                        name,
                        description: f.text_at("description"@),
                        schema: or_tree(f.get("parameters"@), any_object()),
                    },
                ),
            },
        },
        Shape::Responses => match t.text_at("name"@) {
            Some(name) if says(t, "type"@, "function"@) => Some(
                Tool {
                    name,
                    description: t.text_at("description"@),
                    schema: or_tree(t.get("parameters"@), any_object()),
                },
            ),
            _ => None,
        },
    }
}

pub open spec fn all_tools(shape: Shape, ts: Seq<Tree>) -> Seq<Tool>
    decreases ts.len(),
{
    if ts.len() == 0 {
        seq![]
    } else {
        let rest = all_tools(shape, ts.drop_last());
        match tool_of(shape, ts.last()) {
            Some(t) => rest.push(t),
            None => rest,
        }
    }
}

fn copied(s: Option<&String>) -> (r: Option<String>)
    ensures
        opt(r) == (match s {
            Some(s) => Some(s@),
            None => None,
        }),
{
    match s {
        Some(s) => Some(s.clone()),
        None => None,
    }
}

fn schema_or_any(j: Option<&Json>) -> (r: Json)
    ensures
        r@ == or_tree(
            match j {
                Some(j) => Some(j@),
                None => None,
            },
            any_object(),
        ),
{
    match j {
        Some(j) => j.copy(),
        None => Json::record().with("type", Json::text("object")),
    }
}

fn anthropic_tool(t: &Json) -> (r: Option<ToolDef>)
    ensures
        (match r {
            Some(d) => Some(d@),
            None => None,
        }) == tool_of(Shape::Anthropic, t@),
{
    match (t.text_at("name"), t.get("input_schema")) {
        (Some(name), Some(schema)) => {
            if !schema.is_record() {
                return None;
            }
            Some(
                ToolDef {
                    name: name.clone(),
                    description: copied(t.text_at("description")),
                    input_schema: schema.copy(),
                },
            )
        },
        _ => None,
    }
}

fn openai_tool(t: &Json) -> (r: Option<ToolDef>)
    ensures
        (match r {
            Some(d) => Some(d@),
            None => None,
        }) == tool_of(Shape::OpenAi, t@),
{
    match t.get("function") {
        None => None,
        Some(f) => match f.text_at("name") {
            None => None,
            Some(name) => Some(
                ToolDef {
                    name: name.clone(),
                    description: copied(f.text_at("description")),
                    input_schema: schema_or_any(f.get("parameters")),
                },
            ),
        },
    }
}

fn responses_tool(t: &Json) -> (r: Option<ToolDef>)
    ensures
        (match r {
            Some(d) => Some(d@),
            None => None,
        }) == tool_of(Shape::Responses, t@),
{
    if !field_says(t, "type", "function") {
        return None;
    }
    match t.text_at("name") {
        None => None,
        Some(name) => Some(
            ToolDef {
                name: name.clone(),
                description: copied(t.text_at("description")),
                input_schema: schema_or_any(t.get("parameters")),
            },
        ),
    }
}

fn tool_defs(shape: Shape, ts: &Vec<Json>) -> (r: Vec<ToolDef>)
    ensures
        tools(r@) == all_tools(shape, trees(ts@)),
{
    let ghost all = trees(ts@);
    let mut found: Vec<ToolDef> = Vec::new();
    let mut i: usize = 0;
    assert(tools(found@) =~= all_tools(shape, all.take(0)));
    while i < ts.len()
        invariant
            i <= ts@.len(),
            all == trees(ts@),
            tools(found@) == all_tools(shape, all.take(i as int)),
        decreases ts@.len() - i,
    {
        let ghost now = all.take(i as int + 1);
        assert(now.drop_last() =~= all.take(i as int));
        assert(now.last() == ts@[i as int]@);
        let tool = match shape {
            Shape::Anthropic => anthropic_tool(&ts[i]),
            Shape::OpenAi => openai_tool(&ts[i]),
            Shape::Responses => responses_tool(&ts[i]),
        };
        if let Some(t) = tool {
            let ghost before = found@;
            found.push(t);
            assert(tools(found@) =~= tools(before).push(t@));
        }
        i = i + 1;
    }
    assert(all.take(i as int) =~= all);
    found
}

// --------------------------------------------------------------- anthropic

/// A request in Anthropic's Messages shape. `temperature` is a bit pattern,
/// as in [`LlmParams`].
#[derive(Debug, PartialEq)]
pub struct AnthropicRequest {
    pub model: String,
    pub max_tokens: Option<u32>,
    pub system: Option<Json>,
    pub messages: Vec<AnthropicMessage>,
    pub tools: Vec<Json>,
    pub stream: bool,
    pub temperature: Option<u32>,
}

#[derive(Debug, PartialEq)]
pub struct AnthropicMessage {
    pub role: String,
    pub content: Json,
}

/// The blocks of a turn; content that is no list is one block of words.
pub open spec fn blocks_of(content: Tree) -> Seq<Tree> {
    match content {
        Tree::List(b) => b,
        _ => seq![
            Tree::record().with("type"@, Tree::Text("text"@)).with(
                "text"@,
                Tree::Text(flat(content, false)),
            ),
        ],
    }
}

pub open spec fn block_kind(b: Tree) -> Seq<char> {
    or_text(b.text_at("type"@), "text"@)
}

/// The words of the text blocks, the empty ones left out.
pub open spec fn turn_words(blocks: Seq<Tree>) -> Seq<Seq<char>>
    decreases blocks.len(),
{
    if blocks.len() == 0 {
        seq![]
    } else {
        let rest = turn_words(blocks.drop_last());
        let b = blocks.last();
        match b.text_at("text"@) {
            Some(t) if block_kind(b) == "text"@ && t.len() > 0 => rest.push(t),
            _ => rest,
        }
    }
}

/// The call a `tool_use` block makes, its input as JSON text.
pub open spec fn call_of(b: Tree) -> Call {
    Call {
        id: or_text(b.text_at("id"@), seq![]),
        name: or_text(b.text_at("name"@), "tool"@),
        arguments: match b.get("input"@) {
            Some(input) => json_written(input),
            None => "{}"@,
        },
    }
}

pub open spec fn turn_calls(blocks: Seq<Tree>) -> Seq<Call>
    decreases blocks.len(),
{
    if blocks.len() == 0 {
        seq![]
    } else if block_kind(blocks.last()) == "tool_use"@ {
        turn_calls(blocks.drop_last()).push(call_of(blocks.last()))
    } else {
        turn_calls(blocks.drop_last())
    }
}

/// A tool's output as a message of its own.
pub open spec fn result_of(b: Tree) -> Turn {
    Turn {
        role: "tool"@,
        content: match b.get("content"@) {
            Some(c) => flat(c, false),
            None => seq![],
        },
        calls: seq![],
        call_id: b.text_at("tool_use_id"@),
        images: seq![],
    }
}

pub open spec fn turn_results(blocks: Seq<Tree>) -> Seq<Turn>
    decreases blocks.len(),
{
    if blocks.len() == 0 {
        seq![]
    } else if block_kind(blocks.last()) == "tool_result"@ {
        turn_results(blocks.drop_last()).push(result_of(blocks.last()))
    } else {
        turn_results(blocks.drop_last())
    }
}

/// One Anthropic turn as the messages an OpenAI-shaped server needs: each
/// tool result on its own, then whatever the turn itself says.
pub open spec fn resplit(role: Seq<char>, content: Tree) -> Seq<Turn> {
    let blocks = blocks_of(content);
    let words = joined(turn_words(blocks), "\n\n"@);
    let made = turn_calls(blocks);
    let images = all_pictures(content.items(), false);
    if words.len() > 0 || made.len() > 0 || images.len() > 0 {
        turn_results(blocks).push(
            Turn { role, content: words, calls: made, call_id: None, images },
        )
    } else {
        turn_results(blocks)
    }
}

pub fn push_anthropic_turn(out: &mut Vec<ChatMessage>, role: &str, content: &Json)
    ensures
        turns(final(out)@) == turns(old(out)@) + resplit(role@, content@),
{
    proof {
        reveal_strlit("text");
        reveal_strlit("tool_use");
        reveal_strlit("tool_result");
        assert("text"@.len() != "tool_use"@.len());
        assert("text"@.len() != "tool_result"@.len());
        assert("tool_use"@.len() != "tool_result"@.len());
    }
    let ghost start = turns(out@);
    let blocks: Vec<Json> = match content.as_list() {
        Some(b) => copy_list(b),
        None => {
            let mut one: Vec<Json> = Vec::new();
            one.push(
                Json::record().with("type", Json::text("text")).with(
                    "text",
                    Json::Text(flatten_text(content)),
                ),
            );
            assert(trees(one@) =~= blocks_of(content@));
            one
        },
    };
    let ghost all = trees(blocks@);
    assert(all == blocks_of(content@));
    let mut words: Vec<String> = Vec::new();
    let mut made: Vec<ToolCall> = Vec::new();
    let mut i: usize = 0;
    assert(texts(words@) =~= turn_words(all.take(0)));
    assert(calls(made@) =~= turn_calls(all.take(0)));
    assert(turns(out@) =~= start + turn_results(all.take(0)));
    while i < blocks.len()
        invariant
            i <= blocks@.len(),
            all == trees(blocks@),
            texts(words@) == turn_words(all.take(i as int)),
            calls(made@) == turn_calls(all.take(i as int)),
            turns(out@) == start + turn_results(all.take(i as int)),
            "text"@.len() != "tool_use"@.len(),
            "text"@.len() != "tool_result"@.len(),
            "tool_use"@.len() != "tool_result"@.len(),
        decreases blocks@.len() - i,
    {
        let ghost now = all.take(i as int + 1);
        assert(now.drop_last() =~= all.take(i as int));
        assert(now.last() == blocks@[i as int]@);
        let b = &blocks[i];
        let kind = text_or(b, "type", "text");
        if same(kind.as_str(), "text") {
            if let Some(t) = b.text_at("text") {
                if !t.as_str().is_empty() {
                    let t = t.clone();
                    proof {
                        lemma_texts_push(words@, t);
                    }
                    words.push(t);
                }
            }
        } else if same(kind.as_str(), "tool_use") {
            let call = ToolCall {
                id: text_or(b, "id", ""),
                name: text_or(b, "name", "tool"),
                arguments: match b.get("input") {
                    Some(input) => print(input),
                    None => "{}".to_string(),
                },
            };
            proof {
                reveal_strlit("");
                assert(""@ =~= Seq::<char>::empty());
            }
            let ghost before = made@;
            made.push(call);
            assert(calls(made@) =~= calls(before).push(call@));
        } else if same(kind.as_str(), "tool_result") {
            let body = match b.get("content") {
                Some(c) => flatten_text(c),
                None => String::new(),
            };
            let mut m = ChatMessage::new("tool", body);
            m.tool_call_id = copied(b.text_at("tool_use_id"));
            proof {
                lemma_turns_push(out@, m);
                assert(start + turn_results(now.drop_last()).push(m@) =~= (start + turn_results(
                    now.drop_last(),
                )).push(m@));
            }
            out.push(m);
        }
        i = i + 1;
    }
    assert(all.take(i as int) =~= all);
    let said = join(&words, "\n\n");
    let images = images_in(content);
    if !said.as_str().is_empty() || made.len() > 0 || images.len() > 0 {
        let m = ChatMessage {
            role: role.to_string(),
            content: said,
            tool_calls: made,
            tool_call_id: None,
            images,
        };
        proof {
            lemma_turns_push(out@, m);
            assert(start + turn_results(all).push(m@) =~= (start + turn_results(all)).push(m@));
        }
        out.push(m);
    }
}

/// All turns of a conversation, resplit one by one.
pub open spec fn resplit_all(messages: Seq<AnthropicMessage>) -> Seq<Turn>
    decreases messages.len(),
{
    if messages.len() == 0 {
        seq![]
    } else {
        resplit_all(messages.drop_last()) + resplit(
            messages.last().role@,
            messages.last().content@,
        )
    }
}

/// A turn for the system prompt, when there is one that says anything.
pub open spec fn system_turn(prompt: Option<Seq<char>>) -> Seq<Turn> {
    match prompt {
        Some(text) if !blank(text) => seq![Turn::plain("system"@, text)],
        _ => seq![],
    }
}

/// A turn that asks for an answer.
pub open spec fn asks(t: Turn) -> bool {
    !t.is_system() && (!blank(t.content) || t.calls.len() > 0)
}

pub open spec fn any_asks(ts: Seq<Turn>) -> bool {
    exists|i: int| 0 <= i < ts.len() && asks(#[trigger] ts[i])
}

pub open spec fn any_not_system(ts: Seq<Turn>) -> bool {
    exists|i: int| 0 <= i < ts.len() && !(#[trigger] ts[i]).is_system()
}

fn some_asks(ms: &Vec<ChatMessage>) -> (r: bool)
    ensures
        r == any_asks(turns(ms@)),
{
    let mut i: usize = 0;
    while i < ms.len()
        invariant
            i <= ms@.len(),
            forall|k: int| 0 <= k < i ==> !asks(#[trigger] turns(ms@)[k]),
        decreases ms@.len() - i,
    {
        let m = &ms[i];
        if !same(m.role.as_str(), "system") && (!is_blank(m.content.as_str()) || m.tool_calls.len()
            > 0) {
            assert(asks(turns(ms@)[i as int]));
            return true;
        }
        i = i + 1;
    }
    false
}

fn some_not_system(ms: &Vec<ChatMessage>) -> (r: bool)
    ensures
        r == any_not_system(turns(ms@)),
{
    let mut i: usize = 0;
    while i < ms.len()
        invariant
            i <= ms@.len(),
            forall|k: int| 0 <= k < i ==> (#[trigger] turns(ms@)[k]).is_system(),
        decreases ms@.len() - i,
    {
        if !same(ms[i].role.as_str(), "system") {
            assert(!turns(ms@)[i as int].is_system());
            return true;
        }
        i = i + 1;
    }
    false
}

/// What every shape's request turns into, given its turns.
pub open spec fn chat_ask(
    shape: Shape,
    model: Seq<char>,
    ts: Seq<Turn>,
    offered: Seq<Tree>,
    ceiling: Option<u32>,
    temperature: Option<u32>,
) -> Ask {
    Ask {
        model_hash: None,
        model_id: Some(model),
        messages: late_systems_folded(ts),
        tools: all_tools(shape, offered),
        max_tokens: match ceiling {
            Some(n) => n,
            None => DEFAULT_MAX_TOKENS,
        },
        temperature: match temperature {
            Some(t) => t,
            None => 0,
        },
    }
}

fn chat_request(
    shape: Shape,
    model: String,
    messages: Vec<ChatMessage>,
    offered: &Vec<Json>,
    ceiling: Option<u32>,
    temperature: Option<u32>,
    stream: bool,
) -> (r: ChatRequest)
    ensures
        r.model@ == model@,
        r.stream == stream,
        r.params@ == chat_ask(
            shape,
            model@,
            turns(messages@),
            trees(offered@),
            ceiling,
            temperature,
        ),
{
    ChatRequest {
        model: model.clone(),
        params: LlmParams {
            model_hash: None,
            model_id: Some(model),
            messages: fold_late_system_messages(messages),
            tools: tool_defs(shape, offered),
            max_tokens: ceiling.unwrap_or(DEFAULT_MAX_TOKENS),
            temperature: temperature.unwrap_or(0),
        },
        stream,
    }
}

fn push_system(out: &mut Vec<ChatMessage>, text: String)
    ensures
        turns(final(out)@) == turns(old(out)@) + system_turn(Some(text@)),
{
    if !is_blank(text.as_str()) {
        let m = ChatMessage::new("system", text);
        proof {
            lemma_turns_push(out@, m);
            assert(turns(out@).push(m@) =~= turns(out@) + seq![m@]);
        }
        out.push(m);
    } else {
        assert(turns(out@) =~= turns(out@) + system_turn(Some(text@)));
    }
}

impl AnthropicRequest {
    /// The conversation this request holds.
    pub open spec fn conversation(self) -> Seq<Turn> {
        system_turn(
            match self.system {
                Some(s) => Some(flat(s@, false)),
                None => None,
            },
        ) + resplit_all(self.messages@)
    }

    /// The chat request behind it, or a refusal when no turn asks anything.
    pub fn into_chat(self) -> (r: Result<ChatRequest, BadRequest>)
        ensures
            match r {
                Ok(c) => {
                    &&& any_asks(self.conversation())
                    &&& c.model@ == self.model@
                    &&& c.stream == self.stream
                    &&& c.params@ == chat_ask(
                        Shape::Anthropic,
                        self.model@,
                        self.conversation(),
                        trees(self.tools@),
                        self.max_tokens,
                        self.temperature,
                    )
                },
                Err(e) => {
                    &&& !any_asks(self.conversation())
                    &&& e.0@ == "request has no user or assistant turns"@
                },
            },
    {
        let mut messages: Vec<ChatMessage> = Vec::new();
        assert(turns(messages@) =~= seq![]);
        if let Some(system) = &self.system {
            let text = flatten_text(system);
            push_system(&mut messages, text);
        }
        let ghost first = system_turn(
            match self.system {
                Some(s) => Some(flat(s@, false)),
                None => None,
            },
        );
        assert(turns(messages@) =~= first + resplit_all(self.messages@.take(0)));
        let mut i: usize = 0;
        while i < self.messages.len()
            invariant
                i <= self.messages@.len(),
                turns(messages@) == first + resplit_all(self.messages@.take(i as int)),
            decreases self.messages@.len() - i,
        {
            let ghost now = self.messages@.take(i as int + 1);
            assert(now.drop_last() =~= self.messages@.take(i as int));
            let m = &self.messages[i];
            push_anthropic_turn(&mut messages, m.role.as_str(), &m.content);
            assert(first + resplit_all(now.drop_last()) + resplit(m.role@, m.content@) =~= first
                + resplit_all(now));
            i = i + 1;
        }
        assert(self.messages@.take(i as int) =~= self.messages@);
        if !some_asks(&messages) {
            return Err(BadRequest("request has no user or assistant turns".to_string()));
        }
        Ok(
            chat_request(
                Shape::Anthropic,
                self.model,
                messages,
                &self.tools,
                self.max_tokens,
                self.temperature,
                self.stream,
            ),
        )
    }
}

// ------------------------------------------------------------------ openai

/// A request in OpenAI's chat completions shape.
#[derive(Debug, PartialEq)]
pub struct OpenAiRequest {
    pub model: String,
    pub messages: Vec<OpenAiMessage>,
    pub tools: Vec<Json>,
    pub max_tokens: Option<u32>,
    /// The newer name of the same ceiling.
    pub max_completion_tokens: Option<u32>,
    pub stream: bool,
    pub temperature: Option<u32>,
}

#[derive(Debug, PartialEq)]
pub struct OpenAiMessage {
    pub role: String,
    pub content: Json,
    pub tool_calls: Vec<Json>,
    pub tool_call_id: Option<String>,
}

/// A text one field down.
pub open spec fn nested_text(t: Tree, outer: Seq<char>, inner: Seq<char>) -> Option<Seq<char>> {
    match t.get(outer) {
        Some(f) => f.text_at(inner),
        None => None,
    }
}

fn nested_text_or(j: &Json, outer: &str, inner: &str, other: &str) -> (r: String)
    ensures
        r@ == or_text(nested_text(j@, outer@, inner@), other@),
{
    match j.get(outer) {
        Some(f) => text_or(f, inner, other),
        None => other.to_string(),
    }
}

/// A tool call as OpenAI writes it, its arguments already JSON text.
pub open spec fn function_call(c: Tree) -> Call {
    Call {
        id: or_text(c.text_at("id"@), seq![]),
        name: or_text(nested_text(c, "function"@, "name"@), "tool"@),
        arguments: or_text(nested_text(c, "function"@, "arguments"@), "{}"@),
    }
}

pub open spec fn function_calls(cs: Seq<Tree>) -> Seq<Call> {
    Seq::new(cs.len(), |i: int| function_call(cs[i]))
}

/// One OpenAI message.
pub open spec fn openai_turn(m: OpenAiMessage) -> Turn {
    Turn {
        role: m.role@,
        content: flat(m.content@, false),
        calls: function_calls(trees(m.tool_calls@)),
        call_id: opt(m.tool_call_id),
        images: all_pictures(m.content@.items(), false),
    }
}

/// The messages that say or call anything.
pub open spec fn openai_turns(ms: Seq<OpenAiMessage>) -> Seq<Turn>
    decreases ms.len(),
{
    if ms.len() == 0 {
        seq![]
    } else {
        let rest = openai_turns(ms.drop_last());
        let t = openai_turn(ms.last());
        if !blank(t.content) || t.calls.len() > 0 {
            rest.push(t)
        } else {
            rest
        }
    }
}

fn openai_message(m: &OpenAiMessage) -> (r: ChatMessage)
    ensures
        r@ == openai_turn(*m),
{
    proof {
        reveal_strlit("");
        assert(""@ =~= Seq::<char>::empty());
    }
    let mut made: Vec<ToolCall> = Vec::new();
    let mut i: usize = 0;
    while i < m.tool_calls.len()
        invariant
            i <= m.tool_calls@.len(),
            made@.len() == i,
            ""@ == Seq::<char>::empty(),
            forall|k: int|
                0 <= k < i ==> (#[trigger] made@[k])@ == function_call(m.tool_calls@[k]@),
        decreases m.tool_calls@.len() - i,
    {
        let c = &m.tool_calls[i];
        made.push(
            ToolCall {
                id: text_or(c, "id", ""),
                name: nested_text_or(c, "function", "name", "tool"),
                arguments: nested_text_or(c, "function", "arguments", "{}"),
            },
        );
        i = i + 1;
    }
    assert(calls(made@) =~= function_calls(trees(m.tool_calls@)));
    ChatMessage {
        role: m.role.clone(),
        content: flatten_text(&m.content),
        tool_calls: made,
        tool_call_id: copy_opt(&m.tool_call_id),
        images: images_in(&m.content),
    }
}

impl OpenAiRequest {
    /// The ceiling, under either of its names.
    pub open spec fn ceiling(self) -> Option<u32> {
        match self.max_tokens {
            Some(n) => Some(n),
            None => self.max_completion_tokens,
        }
    }

    /// The chat request behind it, or a refusal when there are only system
    /// messages.
    pub fn into_chat(self) -> (r: Result<ChatRequest, BadRequest>)
        ensures
            match r {
                Ok(c) => {
                    &&& any_not_system(openai_turns(self.messages@))
                    &&& c.model@ == self.model@
                    &&& c.stream == self.stream
                    &&& c.params@ == chat_ask(
                        Shape::OpenAi,
                        self.model@,
                        openai_turns(self.messages@),
                        trees(self.tools@),
                        self.ceiling(),
                        self.temperature,
                    )
                },
                Err(e) => {
                    &&& !any_not_system(openai_turns(self.messages@))
                    &&& e.0@ == "request has no user or assistant turns"@
                },
            },
    {
        let mut messages: Vec<ChatMessage> = Vec::new();
        let mut i: usize = 0;
        assert(turns(messages@) =~= openai_turns(self.messages@.take(0)));
        while i < self.messages.len()
            invariant
                i <= self.messages@.len(),
                turns(messages@) == openai_turns(self.messages@.take(i as int)),
            decreases self.messages@.len() - i,
        {
            let ghost now = self.messages@.take(i as int + 1);
            assert(now.drop_last() =~= self.messages@.take(i as int));
            let m = openai_message(&self.messages[i]);
            if !is_blank(m.content.as_str()) || m.tool_calls.len() > 0 {
                proof {
                    lemma_turns_push(messages@, m);
                }
                messages.push(m);
            }
            i = i + 1;
        }
        assert(self.messages@.take(i as int) =~= self.messages@);
        if !some_not_system(&messages) {
            return Err(BadRequest("request has no user or assistant turns".to_string()));
        }
        let ceiling: Option<u32> = if self.max_tokens.is_some() {
            self.max_tokens
        } else {
            self.max_completion_tokens
        };
        Ok(
            chat_request(
                Shape::OpenAi,
                self.model,
                messages,
                &self.tools,
                ceiling,
                self.temperature,
                self.stream,
            ),
        )
    }
}

// --------------------------------------------------------------- responses

/// A request in OpenAI's Responses shape.
#[derive(Debug, PartialEq)]
pub struct ResponsesRequest {
    pub model: String,
    pub input: Json,
    pub instructions: Option<String>,
    pub tools: Vec<Json>,
    pub max_output_tokens: Option<u32>,
    pub stream: bool,
    pub temperature: Option<u32>,
}

/// The role of a message item: `developer` is Responses' word for `system`.
pub open spec fn item_role(item: Tree) -> Seq<char> {
    let role = or_text(item.text_at("role"@), "user"@);
    if role == "developer"@ {
        "system"@
    } else {
        role
    }
}

/// The turn an input item makes, when it makes one. An item without a type is
/// a message.
pub open spec fn item_turn(item: Tree) -> Option<Turn> {
    let kind = item.text_at("type"@);
    if kind is None || kind == Some("message"@) {
        let content = or_tree(item.get("content"@), Tree::Null);
        let text = flat(content, true);
        let images = all_pictures(content.items(), true);
        if text.len() == 0 && images.len() == 0 {
            None
        } else {
            Some(
                Turn { role: item_role(item), content: text, calls: seq![], call_id: None, images },
            )
        }
    } else if kind == Some("function_call"@) {
        let id = match item.get("call_id"@) {
            Some(t) => t.text(),
            None => item.text_at("id"@),
        };
        Some(
            Turn {
                role: "assistant"@,
                content: seq![],
                calls: seq![
                    Call {
                        id: or_text(id, seq![]),
                        name: or_text(item.text_at("name"@), "tool"@),
                        arguments: or_text(item.text_at("arguments"@), "{}"@),
                    },
                ],
                call_id: None,
                images: seq![],
            },
        )
    } else if kind == Some("function_call_output"@) {
        Some(
            Turn {
                role: "tool"@,
                content: match item.get("output"@) {
                    Some(t) => flat(t, true),
                    None => seq![],
                },
                calls: seq![],
                call_id: Some(or_text(item.text_at("call_id"@), seq![])),
                images: seq![],
            },
        )
    } else {
        None
    }
}

pub open spec fn item_turns(items: Seq<Tree>) -> Seq<Turn>
    decreases items.len(),
{
    if items.len() == 0 {
        seq![]
    } else {
        let rest = item_turns(items.drop_last());
        match item_turn(items.last()) {
            Some(t) => rest.push(t),
            None => rest,
        }
    }
}

fn message_item(item: &Json) -> (r: Option<ChatMessage>)
    requires
        item@.text_at("type"@) is None || item@.text_at("type"@) == Some("message"@),
    ensures
        (match r {
            Some(m) => Some(m@),
            None => None,
        }) == item_turn(item@),
{
    let role = text_or(item, "role", "user");
    let role = if same(role.as_str(), "developer") {
        "system".to_string()
    } else {
        role
    };
    let content = match item.get("content") {
        Some(c) => c.copy(),
        None => Json::Null,
    };
    let text = flatten_responses_text(&content);
    let images = responses_images_in(&content);
    if text.as_str().is_empty() && images.len() == 0 {
        return None;
    }
    let mut m = ChatMessage::new(role.as_str(), text);
    m.images = images;
    Some(m)
}

fn call_item(item: &Json) -> (m: ChatMessage)
    requires
        item@.text_at("type"@) == Some("function_call"@),
    ensures
        item_turn(item@) == Some(m@),
{
    proof {
        reveal_strlit("");
        assert(""@ =~= Seq::<char>::empty());
        reveal_strlit("message");
        reveal_strlit("function_call");
        assert("message"@.len() != "function_call"@.len());
    }
    let id = match item.get("call_id") {
        Some(t) => copied(t.as_text()),
        None => copied(item.text_at("id")),
    };
    let id = match id {
        Some(s) => s,
        None => String::new(),
    };
    let call = ToolCall {
        id,
        name: text_or(item, "name", "tool"),
        arguments: text_or(item, "arguments", "{}"),
    };
    let mut m = ChatMessage::new("assistant", String::new());
    let mut made: Vec<ToolCall> = Vec::new();
    made.push(call);
    m.tool_calls = made;
    assert(m@.calls =~= seq![call@]);
    m
}

fn output_item(item: &Json) -> (m: ChatMessage)
    requires
        item@.text_at("type"@) == Some("function_call_output"@),
    ensures
        item_turn(item@) == Some(m@),
{
    proof {
        reveal_strlit("");
        assert(""@ =~= Seq::<char>::empty());
        reveal_strlit("message");
        reveal_strlit("function_call");
        reveal_strlit("function_call_output");
        assert("message"@.len() != "function_call_output"@.len());
        assert("function_call"@.len() != "function_call_output"@.len());
    }
    let output = match item.get("output") {
        Some(t) => flatten_responses_text(t),
        None => String::new(),
    };
    let mut m = ChatMessage::new("tool", output);
    m.tool_call_id = Some(text_or(item, "call_id", ""));
    m
}

pub fn push_responses_item(out: &mut Vec<ChatMessage>, item: &Json)
    ensures
        turns(final(out)@) == (match item_turn(item@) {
            Some(t) => turns(old(out)@).push(t),
            None => turns(old(out)@),
        }),
{
    let found = match item.text_at("type") {
        None => message_item(item),
        Some(kind) => {
            if same(kind.as_str(), "message") {
                message_item(item)
            } else if same(kind.as_str(), "function_call") {
                Some(call_item(item))
            } else if same(kind.as_str(), "function_call_output") {
                Some(output_item(item))
            } else {
                None
            }
        },
    };
    if let Some(m) = found {
        proof {
            lemma_turns_push(out@, m);
        }
        out.push(m);
    }
}

impl ResponsesRequest {
    /// The conversation this request holds.
    pub open spec fn conversation(self) -> Seq<Turn> {
        let said = match self.input@ {
            Tree::Text(s) => seq![Turn::plain("user"@, s)],
            Tree::List(items) => item_turns(items),
            _ => seq![],
        };
        system_turn(opt(self.instructions)) + said
    }

    /// The chat request behind it, or a refusal when there is no input.
    pub fn into_chat(self) -> (r: Result<ChatRequest, BadRequest>)
        ensures
            match r {
                Ok(c) => {
                    &&& any_not_system(self.conversation())
                    &&& c.model@ == self.model@
                    &&& c.stream == self.stream
                    &&& c.params@ == chat_ask(
                        Shape::Responses,
                        self.model@,
                        self.conversation(),
                        trees(self.tools@),
                        self.max_output_tokens,
                        self.temperature,
                    )
                },
                Err(e) => {
                    &&& !any_not_system(self.conversation())
                    &&& e.0@ == "request has no input"@
                },
            },
    {
        let mut messages: Vec<ChatMessage> = Vec::new();
        assert(turns(messages@) =~= seq![]);
        if let Some(text) = &self.instructions {
            push_system(&mut messages, text.clone());
        }
        let ghost first = system_turn(opt(self.instructions));
        assert(turns(messages@) =~= first);
        if let Some(items) = self.input.as_list() {
            let ghost all = trees(items@);
            let mut i: usize = 0;
            assert(turns(messages@) =~= first + item_turns(all.take(0)));
            while i < items.len()
                invariant
                    i <= items@.len(),
                    all == trees(items@),
                    turns(messages@) == first + item_turns(all.take(i as int)),
                decreases items@.len() - i,
            {
                let ghost now = all.take(i as int + 1);
                assert(now.drop_last() =~= all.take(i as int));
                assert(now.last() == items@[i as int]@);
                push_responses_item(&mut messages, &items[i]);
                assert(turns(messages@) =~= first + item_turns(now));
                i = i + 1;
            }
            assert(all.take(i as int) =~= all);
        } else if let Some(s) = self.input.as_text() {
            let m = ChatMessage::new("user", s.clone());
            proof {
                lemma_turns_push(messages@, m);
            }
            messages.push(m);
            assert(turns(messages@) =~= first + seq![m@]);
        } else {
            assert(turns(messages@) =~= first + seq![]);
        }
        assert(turns(messages@) == self.conversation());
        if !some_not_system(&messages) {
            return Err(BadRequest("request has no input".to_string()));
        }
        Ok(
            chat_request(
                Shape::Responses,
                self.model,
                messages,
                &self.tools,
                self.max_output_tokens,
                self.temperature,
                self.stream,
            ),
        )
    }
}

} // verus!
