use vstd::prelude::*;
use vstd::string::{StrSliceExecFns, StringSliceAdditionalSpecFns};
use crate::util::{byte_views, bytes_eq};

verus! {

/// One tool invocation the model asked for: its identifier, the tool's
/// name, and the argument text.
pub struct ToolCall {
    pub id: Vec<u8>,
    pub name: Vec<u8>,
    pub arguments: Vec<u8>,
}

/// One reply of the model: its direct text, if any, and the tool calls it
/// asked for, if any.
pub struct LlmReply {
    pub content: Option<Vec<u8>>,
    pub tool_calls: Option<Vec<ToolCall>>,
}

/// The instruction text that precedes the previous summary.
pub open spec fn prompt_head() -> Seq<u8> {
    "You are an intelligent browsing behavior analyst. Your task is to analyze web traffic patterns and provide meaningful insights.\n\n**Current Analysis:**\n".spec_bytes()
}

/// The instruction text that follows the previous summary.
pub open spec fn prompt_tail() -> Seq<u8> {
    "\n\n**Instructions:**\n1. **Identify Patterns:** Look for recurring domains, workflows, or user behaviors\n2. **Categorize Activity:** Group URLs by purpose (work, research, entertainment, shopping, etc.)\n3. **Extract Insights:** What can you infer about the user's current tasks or interests?\n4. **Update Summary:** Merge new insights with existing analysis, prioritizing recent activity\n5. **Be Concise:** Provide a focused summary that highlights key patterns and changes\n6. **Tool Use:** You have a tool `fetch_page_content` that you can use to get the content of a page. Use it if you think a page is particularly interesting or relevant to the user's activity.\n\n**Output Format:**\n- **Key Patterns:** Main browsing behaviors observed\n- **Current Focus:** What the user seems to be working on or interested in\n- **Notable Changes:** How activity has evolved from the previous summary\n\nProvide your analysis:".spec_bytes()
}

/// The marker that stands in for the previous summary on the first run.
pub open spec fn no_prior_marker() -> Seq<u8> {
    "None - this is the first analysis.".spec_bytes()
}

/// The heading of the user message listing the new URLs.
pub open spec fn user_prefix() -> Seq<u8> {
    "**New Activity:**\n".spec_bytes()
}

/// The name of the one tool the orchestrator advertises.
pub open spec fn fetch_tool_name() -> Seq<u8> {
    "fetch_page_content".spec_bytes()
}

/// The system-role instruction: the fixed analyst brief around the previous
/// summary, or around an explicit no-prior-analysis marker when that
/// summary is empty.
pub open spec fn system_prompt(previous: Seq<u8>) -> Seq<u8> {
    prompt_head() + (if previous.len() == 0 {
        no_prior_marker()
    } else {
        previous
    }) + prompt_tail()
}

/// Builds the system-role instruction for a summarization request.
pub fn build_system_prompt(previous: &Vec<u8>) -> (r: Vec<u8>)
    ensures
        r@ == system_prompt(previous@),
{
    let mut out =
        "You are an intelligent browsing behavior analyst. Your task is to analyze web traffic patterns and provide meaningful insights.\n\n**Current Analysis:**\n".as_bytes_vec();
    if previous.len() == 0 {
        let marker = "None - this is the first analysis.".as_bytes_vec();
        out.extend_from_slice(marker.as_slice());
    } else {
        out.extend_from_slice(previous.as_slice());
    }
    let tail =
        "\n\n**Instructions:**\n1. **Identify Patterns:** Look for recurring domains, workflows, or user behaviors\n2. **Categorize Activity:** Group URLs by purpose (work, research, entertainment, shopping, etc.)\n3. **Extract Insights:** What can you infer about the user's current tasks or interests?\n4. **Update Summary:** Merge new insights with existing analysis, prioritizing recent activity\n5. **Be Concise:** Provide a focused summary that highlights key patterns and changes\n6. **Tool Use:** You have a tool `fetch_page_content` that you can use to get the content of a page. Use it if you think a page is particularly interesting or relevant to the user's activity.\n\n**Output Format:**\n- **Key Patterns:** Main browsing behaviors observed\n- **Current Focus:** What the user seems to be working on or interested in\n- **Notable Changes:** How activity has evolved from the previous summary\n\nProvide your analysis:".as_bytes_vec();
    out.extend_from_slice(tail.as_slice());
    proof {
        assert(out@ =~= system_prompt(previous@));
    }
    out
}

/// The listed URLs, one per line.
pub open spec fn joined_lines(us: Seq<Seq<u8>>) -> Seq<u8>
    decreases us.len(),
{
    if us.len() == 0 {
        Seq::empty()
    } else if us.len() == 1 {
        us[0]
    } else {
        us[0] + seq![10u8] + joined_lines(us.drop_first())
    }
}

/// The user-role message: the activity heading, then the new URLs one per
/// line.
pub open spec fn user_message(urls: Seq<Seq<u8>>) -> Seq<u8> {
    user_prefix() + joined_lines(urls)
}

/// Builds the user-role message listing the new URLs.
pub fn build_user_message(urls: &Vec<Vec<u8>>) -> (r: Vec<u8>)
    ensures
        r@ == user_message(byte_views(urls@)),
{
    let ghost views = byte_views(urls@);
    let mut out = "**New Activity:**\n".as_bytes_vec();
    let mut i: usize = 0;
    proof {
        assert(views.skip(0) =~= views);
    }
    while i < urls.len()
        invariant
            i <= urls@.len(),
            views == byte_views(urls@),
            user_message(views) == out@ + joined_lines(views.skip(i as int)),
            i == 0 ==> out@ == user_prefix(),
        decreases urls@.len() - i,
    {
        let ghost rest = views.skip(i as int);
        proof {
            assert(rest[0] == views[i as int]);
            assert(rest.drop_first() =~= views.skip(i as int + 1));
        }
        out.extend_from_slice(urls[i].as_slice());
        if i + 1 < urls.len() {
            out.push(10);
            proof {
                assert(rest.len() >= 2);
                assert(joined_lines(rest) == rest[0] + seq![10u8] + joined_lines(
                    rest.drop_first(),
                ));
                assert(user_message(views) =~= out@ + joined_lines(views.skip(i as int + 1)));
            }
        } else {
            proof {
                assert(rest.len() == 1);
                assert(joined_lines(rest) == rest[0]);
                assert(views.skip(i as int + 1) =~= Seq::<Seq<u8>>::empty());
                assert(user_message(views) =~= out@ + joined_lines(views.skip(i as int + 1)));
            }
        }
        i += 1;
    }
    proof {
        assert(views.skip(i as int) =~= Seq::<Seq<u8>>::empty());
        assert(user_message(views) =~= out@);
    }
    out
}

/// The URL argument that serde_json reads out of a tool call's argument
/// text: `None` where the text is not valid JSON, `Some(None)` where it is
/// JSON without a string `url` member, `Some(Some(u))` otherwise.
pub uninterp spec fn tool_url_of(args: Seq<u8>) -> Option<Option<Seq<u8>>>;

/// Relies on serde_json's `from_str::<Value>`, `Value::get` and
/// `Value::as_str`: what they read depends on the argument text alone.
#[verifier::external_body]
fn parse_tool_url(args: &[u8]) -> (r: Option<Option<Vec<u8>>>)
    ensures
        match r {
            None => tool_url_of(args@) is None,
            Some(None) => tool_url_of(args@) == Some(Option::<Seq<u8>>::None),
            Some(Some(u)) => tool_url_of(args@) == Some(Some(u@)),
        },
{
    let text = match core::str::from_utf8(args) { Ok(t) => t, Err(_) => return None };
    let v: serde_json::Value = match serde_json::from_str(text) { Ok(v) => v, Err(_) => return None };
    match v.get("url").and_then(|u| u.as_str()) {
        Some(u) => Some(Some(u.as_bytes().to_vec())),
        None => Some(None),
    }
}

/// What one tool call asks the orchestrator to do.
pub enum ToolAction {
    /// Not the page-fetch tool, or no usable URL: no side effect, no reply.
    Skip,
    /// Fetch this page and return its paragraph text as the tool result.
    Fetch(Vec<u8>),
    /// The argument text was not JSON: the whole summarization fails.
    Fail,
}

/// Decides one tool call as the orchestrator does: only the page-fetch tool
/// is acted on; non-JSON arguments fail the whole summarization; JSON
/// without a string `url` member is skipped silently; otherwise the page is
/// fetched.
pub fn tool_call_action(call: &ToolCall) -> (a: ToolAction)
    ensures
        call.name@ != fetch_tool_name() ==> a is Skip,
        call.name@ == fetch_tool_name() ==> match a {
            ToolAction::Fail => tool_url_of(call.arguments@) is None,
            ToolAction::Skip => tool_url_of(call.arguments@) == Some(Option::<Seq<u8>>::None),
            ToolAction::Fetch(u) => tool_url_of(call.arguments@) == Some(Some(u@)),
        },
{
    let tool_name = "fetch_page_content".as_bytes_vec();
    if !bytes_eq(call.name.as_slice(), tool_name.as_slice()) {
        return ToolAction::Skip;
    }
    match parse_tool_url(call.arguments.as_slice()) {
        None => ToolAction::Fail,
        Some(None) => ToolAction::Skip,
        Some(Some(u)) => ToolAction::Fetch(u),
    }
}

/// The visible paragraph text that scraper extracts from an HTML document:
/// the inner HTML of its `p` elements, joined with newlines.
pub uninterp spec fn paragraph_text_of(html: Seq<u8>) -> Seq<u8>;

/// Relies on scraper's `Html::parse_document`, `Selector::parse` and
/// `ElementRef::inner_html`: the extraction depends on the document text
/// alone.
#[verifier::external_body]
fn extract_paragraphs(html: &[u8]) -> (r: Vec<u8>)
    ensures
        r@ == paragraph_text_of(html@),
{
    let text = String::from_utf8_lossy(html);
    let document = scraper::Html::parse_document(&text);
    let selector = match scraper::Selector::parse("p") { Ok(s) => s, Err(_) => return Vec::new() };
    let joined = document.select(&selector).map(|x| x.inner_html()).collect::<Vec<_>>().join("\n");
    joined.into_bytes()
}

/// The content of one tool-result message: the paragraph text of the
/// fetched page.
pub fn tool_result_content(html: &Vec<u8>) -> (r: Vec<u8>)
    ensures
        r@ == paragraph_text_of(html@),
{
    extract_paragraphs(html.as_slice())
}

/// Whether the first reply triggers the orchestrator's single tool round:
/// any tool-call list at all does, even an empty one.
pub fn needs_tool_round(reply: &LlmReply) -> (b: bool)
    ensures
        b == (reply.tool_calls is Some),
{
    match &reply.tool_calls {
        Some(_) => true,
        None => false,
    }
}

/// The final summary text, from the first reply's text and — where the tool
/// round ran — the follow-up reply's text: the follow-up's text wins, the
/// first reply's text is the fallback, and the empty string stands where
/// neither reply carried text.
pub open spec fn final_text_spec(first: Option<Seq<u8>>, followup: Option<Option<Seq<u8>>>) -> Seq<
    u8,
> {
    match followup {
        Some(Some(t)) => t,
        _ => match first {
            Some(t) => t,
            None => Seq::empty(),
        },
    }
}

/// Picks the final summary text per `final_text_spec`; `followup` is `None`
/// where no tool round ran.
pub fn final_text(first: &Option<Vec<u8>>, followup: &Option<Option<Vec<u8>>>) -> (r: Vec<u8>)
    ensures
        r@ == final_text_spec(
            match first {
                Some(t) => Some(t@),
                None => None,
            },
            match followup {
                Some(Some(t)) => Some(Some(t@)),
                Some(None) => Some(None),
                None => None,
            },
        ),
{
    let mut out: Vec<u8> = Vec::new();
    match followup {
        Some(Some(t)) => {
            out.extend_from_slice(t.as_slice());
            proof {
                assert(out@ =~= t@);
            }
            return out;
        },
        _ => {},
    }
    match first {
        Some(t) => {
            out.extend_from_slice(t.as_slice());
            proof {
                assert(out@ =~= t@);
            }
            out
        },
        None => {
            proof {
                assert(out@ =~= Seq::<u8>::empty());
            }
            out
        },
    }
}

} // verus!
