//! What a call of a tool asks for, and what the model is told of what came of it.

use vstd::prelude::*;
use vstd::string::*;

use crate::executor;
use crate::executor::GivenView;
use crate::json;
use crate::json::Json;
use crate::orchestration;
use crate::provider::ToolCallView;
use crate::run::Cancellation;
use crate::tools;
use crate::tools::Capabilities;
use crate::tools::DirectoryEntryKind;
use crate::tools::FetchUrlError;
use crate::tools::FetchUrlOutput;
use crate::tools::ListDirectoryError;
use crate::tools::ListDirectoryOutput;
use crate::tools::ReadFileError;
use crate::tools::ReadFileOutput;
use crate::tools::ReadFileRange;
use crate::tools::ToolArgumentsView;
use crate::tools::ToolErrorView;
use crate::tools::ToolNameView;
use crate::tools::ToolRequestView;
use crate::tools::ToolResult;

verus! {

/// Whether some members hold an unsigned integer under a key.
pub open spec fn holds_number(members: Map<Seq<char>, Json>, key: Seq<char>, n: u64) -> bool {
    members.contains_key(key) && match members[key] {
        Json::Number(number) => number.unsigned == Some(n),
        _ => false,
    }
}

/// Whether some members hold a text under a key.
pub open spec fn holds_text(members: Map<Seq<char>, Json>, key: Seq<char>, held: Seq<char>) -> bool {
    members.contains_key(key) && members[key] == Json::Text(held)
}

/// Whether a value is an object that holds a value under a key.
pub open spec fn object_with(value: Json, key: Seq<char>, held: Json) -> bool {
    match value {
        Json::Object(members) => members.contains_key(key) && members[key] == held,
        _ => false,
    }
}

proof fn lemma_tool_names()
    ensures
        "read_file"@ != "fetch_url"@,
        "read_file"@ != "list_directory"@,
        "list_directory"@ != "fetch_url"@,
{
    reveal_strlit("read_file");
    reveal_strlit("fetch_url");
    reveal_strlit("list_directory");
    assert("read_file"@[0] == 'r' && "fetch_url"@[0] == 'f' && "list_directory"@[0] == 'l');
}

/// A call that reads a file asks for the path that it names and, where it holds two unsigned integers
/// under `start_line` and `end_line`, for the lines from the first of them to the second, in a chat
/// and in a run of an agent; where it holds neither, for the whole file. With one of them alone, or
/// with anything else under either, it is refused.
pub proof fn law_files_are_asked_for_as_given(
    call: ToolCallView,
    members: Map<Seq<char>, Json>,
    path: Seq<char>,
)
    requires
        call.name == "read_file"@,
        call.arguments == Json::Object(members),
        holds_text(members, "path"@, path),
    ensures
        forall|a: u64, b: u64|
            #![trigger holds_number(members, "start_line"@, a), holds_number(members, "end_line"@, b)]
            holds_number(members, "start_line"@, a) && holds_number(members, "end_line"@, b) ==> {
                let range = ReadFileRange { start_line: a as usize, end_line: b as usize };
                let request = ToolRequestView {
                    name: ToolNameView::ReadFile,
                    arguments: ToolArgumentsView::ReadFile { path, range: Some(range) },
                };
                &&& orchestration::argument_problem(call) is None
                &&& orchestration::call_refusal(call) is None
                &&& orchestration::asked(call) == request
                &&& orchestration::agent_argument_problem(call) is None
                &&& orchestration::agent_asked(call) == request
                &&& a <= b <= usize::MAX ==> range.start_line <= range.end_line
            },
        !members.contains_key("start_line"@) && !members.contains_key("end_line"@) ==> {
            let request = ToolRequestView {
                name: ToolNameView::ReadFile,
                arguments: ToolArgumentsView::ReadFile { path, range: None },
            };
            &&& orchestration::argument_problem(call) is None
            &&& orchestration::call_refusal(call) is None
            &&& orchestration::asked(call) == request
            &&& orchestration::agent_argument_problem(call) is None
            &&& orchestration::agent_asked(call) == request
        },
        members.contains_key("start_line"@) != members.contains_key("end_line"@) ==> {
            &&& orchestration::call_refusal(call) is Some
            &&& orchestration::agent_argument_problem(call) is Some
        },
        (members.contains_key("start_line"@) && !(exists|a: u64|
            #[trigger] holds_number(members, "start_line"@, a))) || (members.contains_key(
            "end_line"@,
        ) && !(exists|b: u64| #[trigger] holds_number(members, "end_line"@, b))) ==> {
            &&& orchestration::call_refusal(call) is Some
            &&& orchestration::agent_argument_problem(call) is Some
        },
{
    lemma_tool_names();
    if members.contains_key("start_line"@) {
        match json::unsigned_of(members["start_line"@]) {
            Some(a) => {
                assert(holds_number(members, "start_line"@, a));
            },
            None => {},
        }
    }
    if members.contains_key("end_line"@) {
        match json::unsigned_of(members["end_line"@]) {
            Some(b) => {
                assert(holds_number(members, "end_line"@, b));
            },
            None => {},
        }
    }
}

/// A call that lists a directory asks for the path that it names, and one that fetches a page for the
/// URL that it names, in a chat and in a run of an agent.
pub proof fn law_directories_and_pages_are_asked_for_as_given(
    call: ToolCallView,
    members: Map<Seq<char>, Json>,
    named: Seq<char>,
)
    requires
        call.arguments == Json::Object(members),
    ensures
        call.name == "list_directory"@ && holds_text(members, "path"@, named) ==> {
            let request = ToolRequestView {
                name: ToolNameView::ListDirectory,
                arguments: ToolArgumentsView::ListDirectory { path: named },
            };
            &&& orchestration::call_refusal(call) is None
            &&& orchestration::asked(call) == request
            &&& orchestration::agent_argument_problem(call) is None
            &&& orchestration::agent_asked(call) == request
        },
        call.name == "fetch_url"@ && holds_text(members, "url"@, named) ==> {
            let request = ToolRequestView {
                name: ToolNameView::FetchUrl,
                arguments: ToolArgumentsView::FetchUrl { url: named },
            };
            &&& orchestration::call_refusal(call) is None
            &&& orchestration::asked(call) == request
            &&& orchestration::agent_argument_problem(call) is None
            &&& orchestration::agent_asked(call) == request
        },
{
    lemma_tool_names();
}

/// Whether a call of a chat, and one of an agent, is refused for its arguments.
pub open spec fn refused_for_arguments(call: ToolCallView) -> bool {
    &&& match orchestration::call_refusal(call) {
        Some(ToolErrorView::InvalidArguments(_)) => true,
        _ => false,
    }
    &&& orchestration::agent_argument_problem(call) is Some
}

/// A call of a tool that there is none of is refused, with its name; one whose arguments are no
/// object, or do not name what is wanted as a text, is refused for its arguments. No refused call of
/// a chat comes to anything but its refusal.
pub proof fn law_wrong_calls_are_refused<C: Capabilities>(
    registry: &tools::ToolRegistry<C>,
    cancellation: &Cancellation,
    call: ToolCallView,
    result: ToolResult,
)
    ensures
        call.name != "read_file"@ && call.name != "list_directory"@ && call.name != "fetch_url"@
            ==> orchestration::call_refusal(call) == Some(ToolErrorView::UnknownTool(call.name))
            && orchestration::agent_asked(call).name == ToolNameView::Unknown(call.name),
        (call.name == "read_file"@ || call.name == "list_directory"@ || call.name == "fetch_url"@)
            && !(call.arguments is Object) ==> refused_for_arguments(call),
        call.arguments is Object && (call.name == "read_file"@ || call.name == "list_directory"@)
            && !(exists|path: Seq<char>|
            #[trigger] holds_text(call.arguments->Object_0, "path"@, path))
            ==> refused_for_arguments(call),
        call.arguments is Object && call.name == "fetch_url"@ && !(exists|url: Seq<char>|
            #[trigger] holds_text(call.arguments->Object_0, "url"@, url))
            ==> refused_for_arguments(call),
        orchestration::call_refusal(call) is Some && orchestration::call_comes_to(
            registry,
            cancellation,
            call,
            result,
        ) ==> result.result is Err && result.result->Err_0@ == orchestration::call_refusal(call)->0,
{
    lemma_tool_names();
    if call.arguments is Object {
        let members = call.arguments->Object_0;
        match json::text_member(call.arguments, "path"@) {
            Some(path) => {
                assert(holds_text(members, "path"@, path));
            },
            None => {},
        }
        match json::text_member(call.arguments, "url"@) {
            Some(url) => {
                assert(holds_text(members, "url"@, url));
            },
            None => {},
        }
    }
}

/// What reading a file comes to is what the capabilities gave when they were asked for just that path
/// and just those lines: the content whole, with its path, its size and its lines, or an error.
pub proof fn law_files_are_read_as_asked<C: Capabilities>(
    capabilities: &C,
    cancellation: &Cancellation,
    path: Seq<char>,
    range: Option<ReadFileRange>,
    result: ToolResult,
)
    requires
        tools::comes_to(
            capabilities,
            ToolRequestView {
                name: ToolNameView::ReadFile,
                arguments: ToolArgumentsView::ReadFile { path, range },
            },
            cancellation,
            result,
        ),
    ensures
        exists|at: &str, outcome: Result<ReadFileOutput, ReadFileError>|
            {
                &&& at@ == path
                &&& #[trigger] call_ensures(C::read_file, (capabilities, at, range), outcome)
                &&& match outcome {
                    Ok(output) => {
                        &&& result.result is Ok
                        &&& result.result->Ok_0.content@ == output.content@
                        &&& result.result->Ok_0.metadata.path@ == output.path@
                        &&& result.result->Ok_0.metadata.bytes == output.bytes
                        &&& result.result->Ok_0.metadata.range == output.range
                        &&& !result.result->Ok_0.metadata.truncated
                    },
                    Err(error) => {
                        &&& result.result is Err
                        &&& names_blamed(error, tools::error_text(result.result->Err_0@))
                    },
                }
            },
{
    let outcome = choose|outcome: Result<ReadFileOutput, ReadFileError>|
        tools::read_gives(capabilities, path, range, outcome) && #[trigger] tools::tells_file(
            outcome,
            result,
        );
    let at = choose|at: &str|
        at@ == path && #[trigger] call_ensures(C::read_file, (capabilities, at, range), outcome);
    assert(call_ensures(C::read_file, (capabilities, at, range), outcome));
}

/// What is said of a file that was not read: why, and which file it is.
pub open spec fn names_blamed(error: ReadFileError, said: Seq<char>) -> bool {
    match error {
        ReadFileError::InvalidPath(path) => said == "invalid path: "@ + path@,
        ReadFileError::OutsideWorkspace(path) => said == "path is outside the workspace: "@ + path@,
        ReadFileError::NotFound(path) => said == "file not found: "@ + path@,
        ReadFileError::Directory(path) => said == "path is a directory: "@ + path@,
        ReadFileError::TooLarge { path, .. } => said == "file is too large: "@ + path@,
        ReadFileError::InvalidRange { .. } => said == "invalid file range"@,
        ReadFileError::Io { path, message } => said == "I/O error for "@ + path@ + ": "@ + message@,
        ReadFileError::UnsupportedEncoding(path) => said == "unsupported encoding: "@ + path@,
    }
}

/// The name of a kind of entry.
pub open spec fn kind_name(kind: DirectoryEntryKind) -> Seq<char> {
    match kind {
        DirectoryEntryKind::File => "file"@,
        DirectoryEntryKind::Directory => "directory"@,
        DirectoryEntryKind::Symlink => "symlink"@,
        DirectoryEntryKind::Other => "other"@,
    }
}

/// What listing a directory comes to is what the capabilities gave when they were asked for just that
/// path: all entries in their order, each with its name and its kind, or an error.
pub proof fn law_directories_are_listed_as_asked<C: Capabilities>(
    capabilities: &C,
    cancellation: &Cancellation,
    path: Seq<char>,
    result: ToolResult,
)
    requires
        tools::comes_to(
            capabilities,
            ToolRequestView {
                name: ToolNameView::ListDirectory,
                arguments: ToolArgumentsView::ListDirectory { path },
            },
            cancellation,
            result,
        ),
    ensures
        exists|at: &str, outcome: Result<ListDirectoryOutput, ListDirectoryError>|
            {
                &&& at@ == path
                &&& #[trigger] call_ensures(C::list_directory, (capabilities, at), outcome)
                &&& match outcome {
                    Ok(output) => {
                        &&& result.result is Ok
                        &&& exists|told: Json, entries: Seq<Json>|
                            {
                                &&& result.result->Ok_0.content@ == #[trigger] json::json_text(told)
                                &&& object_with(told, "path"@, Json::Text(output.path@))
                                &&& #[trigger] object_with(told, "entries"@, Json::Array(entries))
                                &&& entries.len() == output.entries@.len()
                                &&& forall|k: int|
                                    0 <= k < entries.len() ==> object_with(
                                        #[trigger] entries[k],
                                        "name"@,
                                        Json::Text(output.entries@[k].name@),
                                    ) && object_with(
                                        entries[k],
                                        "kind"@,
                                        Json::Text(kind_name(output.entries@[k].kind)),
                                    )
                            }
                    },
                    Err(error) => result.result is Err,
                }
            },
{
    let outcome = choose|outcome: Result<ListDirectoryOutput, ListDirectoryError>|
        tools::list_gives(capabilities, path, outcome) && #[trigger] tools::tells_directory(
            path,
            outcome,
            result,
        );
    let at = choose|at: &str|
        at@ == path && #[trigger] call_ensures(C::list_directory, (capabilities, at), outcome);
    assert(call_ensures(C::list_directory, (capabilities, at), outcome));
    match outcome {
        Ok(output) => {
            let told = tools::directory_json(output);
            let entries = output.entries@.map_values(
                |e: tools::DirectoryEntry| tools::entry_json(e),
            );
            reveal_strlit("path");
            reveal_strlit("entries");
            reveal_strlit("name");
            reveal_strlit("kind");
            assert("name"@[0] == 'n' && "kind"@[0] == 'k');
            let members = seq![
                ("path"@, Json::Text(output.path@)),
                ("entries"@, Json::Array(entries)),
            ];
            assert("path"@.len() != "entries"@.len());
            json::lemma_member_of(members, 0);
            json::lemma_member_of(members, 1);
            assert(object_with(told, "entries"@, Json::Array(entries)));
            assert forall|k: int| 0 <= k < entries.len() implies object_with(
                #[trigger] entries[k],
                "name"@,
                Json::Text(output.entries@[k].name@),
            ) && object_with(
                entries[k],
                "kind"@,
                Json::Text(kind_name(output.entries@[k].kind)),
            ) by {
                let entry = output.entries@[k];
                let parts = seq![
                    ("name"@, Json::Text(entry.name@)),
                    ("kind"@, Json::Text(kind_name(entry.kind))),
                ];
                json::lemma_member_of(parts, 0);
                json::lemma_member_of(parts, 1);
                assert(entries[k] == json::object_of(parts));
            }
            assert(result.result->Ok_0.content@ == json::json_text(told));
        },
        Err(_) => {},
    }
}

/// What fetching a page comes to is what the capabilities gave when they were asked for just that
/// URL: where it came from, what it is and its content, or an error. Content that is short enough is
/// told whole; of longer content a start is told, and that it is one.
pub proof fn law_pages_are_fetched_as_asked<C: Capabilities>(
    capabilities: &C,
    cancellation: &Cancellation,
    url: Seq<char>,
    result: ToolResult,
)
    requires
        tools::comes_to(
            capabilities,
            ToolRequestView {
                name: ToolNameView::FetchUrl,
                arguments: ToolArgumentsView::FetchUrl { url },
            },
            cancellation,
            result,
        ),
    ensures
        exists|at: &str, outcome: Result<FetchUrlOutput, FetchUrlError>|
            {
                &&& at@ == url
                &&& #[trigger] call_ensures(C::fetch_url, (capabilities, at, cancellation), outcome)
                &&& match outcome {
                    Ok(output) => {
                        &&& result.result is Ok
                        &&& exists|told: Json, content: Seq<char>, cut: bool|
                            {
                                &&& result.result->Ok_0.content@ == #[trigger] json::json_text(told)
                                &&& object_with(told, "tool"@, Json::Text("fetch_url"@))
                                &&& object_with(told, "url"@, Json::Text(output.url@))
                                &&& object_with(told, "final_url"@, Json::Text(output.final_url@))
                                &&& object_with(
                                    told,
                                    "content_type"@,
                                    Json::Text(output.content_type@),
                                )
                                &&& #[trigger] object_with(told, "content"@, Json::Text(content))
                                &&& #[trigger] object_with(told, "truncated"@, Json::Bool(cut))
                                &&& content.is_prefix_of(output.content@)
                                &&& content != output.content@ ==> cut
                                &&& output.truncated ==> cut
                                &&& crate::text::utf8_len(output.content@)
                                    <= tools::MAX_TOOL_CONTENT_BYTES ==> content == output.content@
                                    && cut == output.truncated
                            }
                    },
                    Err(error) => result.result is Err,
                }
            },
{
    let outcome = choose|outcome: Result<FetchUrlOutput, FetchUrlError>|
        tools::fetch_gives(capabilities, url, cancellation, outcome)
            && #[trigger] tools::tells_page(url, outcome, result);
    let at = choose|at: &str|
        at@ == url && #[trigger] call_ensures(
            C::fetch_url,
            (capabilities, at, cancellation),
            outcome,
        );
    assert(call_ensures(C::fetch_url, (capabilities, at, cancellation), outcome));
    match outcome {
        Ok(output) => {
            let told = tools::page_json(output);
            let content = tools::page_content(output);
            let cut = tools::page_truncated(output);
            let members = seq![
                ("tool"@, Json::Text("fetch_url"@)),
                ("url"@, Json::Text(output.url@)),
                ("final_url"@, Json::Text(output.final_url@)),
                ("content_type"@, Json::Text(output.content_type@)),
                ("content"@, Json::Text(content)),
                ("truncated"@, Json::Bool(cut)),
            ];
            reveal_strlit("tool");
            reveal_strlit("url");
            reveal_strlit("final_url");
            reveal_strlit("content_type");
            reveal_strlit("content");
            reveal_strlit("truncated");
            assert("tool"@.len() == 4 && "url"@.len() == 3 && "final_url"@.len() == 9);
            assert("content_type"@.len() == 12 && "content"@.len() == 7);
            assert("truncated"@.len() == 9 && "truncated"@[0] == 't' && "final_url"@[0] == 'f');
            json::lemma_member_of(members, 0);
            json::lemma_member_of(members, 1);
            json::lemma_member_of(members, 2);
            json::lemma_member_of(members, 3);
            json::lemma_member_of(members, 4);
            json::lemma_member_of(members, 5);
            assert(told == json::object_of(members));
            crate::text::law_truncation(output.content@, tools::MAX_TOOL_CONTENT_BYTES as nat);
            assert(object_with(told, "content"@, Json::Text(content)));
            assert(object_with(told, "truncated"@, Json::Bool(cut)));
            assert(result.result->Ok_0.content@ == json::json_text(told));
        },
        Err(_) => {},
    }
}

/// A model is told the whole content of what a tool gave, with the name of the tool, the path, the
/// size and the lines; of an error it is told that it is one.
pub proof fn law_results_are_told_whole(result: ToolResult, name: Seq<char>)
    ensures
        match result.result {
            Ok(output) => name != "fetch_url"@ ==> {
                let told = orchestration::result_json(result, name);
                &&& object_with(told, "tool"@, Json::Text(name))
                &&& object_with(told, "path"@, Json::Text(output.metadata.path@))
                &&& object_with(told, "content"@, Json::Text(output.content@))
                &&& exists|known: Json, bytes: Json, lines: Json|
                    {
                        &&& #[trigger] object_with(told, "metadata"@, known)
                        &&& #[trigger] object_with(known, "bytes"@, bytes)
                        &&& #[trigger] object_with(known, "range"@, lines)
                        &&& bytes == json::number_of(output.metadata.bytes as u64)
                        &&& match output.metadata.range {
                            Some(range) => object_with(
                                lines,
                                "start_line"@,
                                json::number_of(range.start_line as u64),
                            ) && object_with(
                                lines,
                                "end_line"@,
                                json::number_of(range.end_line as u64),
                            ),
                            None => lines == Json::Null,
                        }
                    }
            },
            Err(error) => {
                let told = orchestration::result_json(result, name);
                &&& object_with(told, "tool"@, Json::Text(name))
                &&& object_with(told, "error"@, Json::Text(tools::error_debug(error@)))
            },
        },
{
    reveal_strlit("tool");
    reveal_strlit("path");
    reveal_strlit("content");
    reveal_strlit("metadata");
    reveal_strlit("bytes");
    reveal_strlit("range");
    reveal_strlit("error");
    reveal_strlit("start_line");
    reveal_strlit("end_line");
    assert("tool"@[0] == 't' && "path"@[0] == 'p' && "bytes"@[0] == 'b' && "range"@[0] == 'r');
    assert("content"@.len() == 7 && "metadata"@.len() == 8);
    let told = orchestration::result_json(result, name);
    match result.result {
        Ok(output) => {
            if name != "fetch_url"@ {
                let lines = orchestration::range_json(output.metadata.range);
                let bytes = json::number_of(output.metadata.bytes as u64);
                let parts = seq![("bytes"@, bytes), ("range"@, lines)];
                let known = json::object_of(parts);
                let members = seq![
                    ("tool"@, Json::Text(name)),
                    ("path"@, Json::Text(output.metadata.path@)),
                    ("content"@, Json::Text(output.content@)),
                    ("metadata"@, known),
                ];
                json::lemma_member_of(parts, 0);
                json::lemma_member_of(parts, 1);
                json::lemma_member_of(members, 0);
                json::lemma_member_of(members, 1);
                json::lemma_member_of(members, 2);
                json::lemma_member_of(members, 3);
                assert(told == json::object_of(members));
                match output.metadata.range {
                    Some(range) => {
                        let ends = seq![
                            ("start_line"@, json::number_of(range.start_line as u64)),
                            ("end_line"@, json::number_of(range.end_line as u64)),
                        ];
                        assert("start_line"@.len() != "end_line"@.len());
                        json::lemma_member_of(ends, 0);
                        json::lemma_member_of(ends, 1);
                    },
                    None => {},
                }
                assert(object_with(told, "metadata"@, known));
                assert(object_with(known, "bytes"@, bytes));
                assert(object_with(known, "range"@, lines));
            }
        },
        Err(error) => {
            let members = seq![
                ("error"@, Json::Text(tools::error_debug(error@))),
                ("tool"@, Json::Text(name)),
            ];
            assert("error"@.len() != "tool"@.len());
            json::lemma_member_of(members, 0);
            json::lemma_member_of(members, 1);
        },
    }
}

/// A page that a tool gave is told to the model of a chat with everything that is known of it, and
/// with the name of the tool.
pub proof fn law_pages_are_told_whole(
    result: ToolResult,
    members: Map<Seq<char>, Json>,
    key: Seq<char>,
)
    requires
        result.result is Ok,
        json::parsed_json(vstd::utf8::encode_utf8(result.result->Ok_0.content@)) == Some(
            Json::Object(members),
        ),
    ensures
        object_with(
            orchestration::result_json(result, "fetch_url"@),
            "tool"@,
            Json::Text("fetch_url"@),
        ),
        key != "tool"@ && members.contains_key(key) ==> object_with(
            orchestration::result_json(result, "fetch_url"@),
            key,
            members[key],
        ),
{
}

/// The model of an agent is told the whole content of what a tool gave, and of an error why it came
/// to it.
pub proof fn law_agents_are_told_whole(result: ToolResult)
    ensures
        match (result.result, orchestration::told_of(result)) {
            (Ok(output), GivenView::Told { succeeded, content }) => succeeded && content
                == output.content@,
            (Err(error), GivenView::Told { succeeded, content }) => !succeeded && content
                == tools::error_text(error@),
            _ => false,
        },
{
}

/// The read-only policy allows to read files, to list directories and to fetch pages, and nothing
/// else.
pub proof fn law_read_only_tools(name: Seq<char>)
    ensures
        executor::read_only_decision(name) is Allow <==> (name == "read_file"@ || name
            == "list_directory"@ || name == "fetch_url"@),
        !(executor::read_only_decision(name) is RequireApproval),
{
}

/// A call that reads lines of a file gives the model of an agent the whole of what the capabilities
/// gave for just that path and just those lines, or an error where they gave one; without tools it
/// cannot be run.
pub proof fn law_agents_read_what_they_ask<C: Capabilities>(
    registry: Option<tools::ToolRegistry<C>>,
    cancellation: &Cancellation,
    call: ToolCallView,
    members: Map<Seq<char>, Json>,
    path: Seq<char>,
    a: u64,
    b: u64,
    given: GivenView,
)
    requires
        call.name == "read_file"@,
        call.arguments == Json::Object(members),
        holds_text(members, "path"@, path),
        holds_number(members, "start_line"@, a),
        holds_number(members, "end_line"@, b),
        orchestration::agent_call_comes_to(registry, cancellation, call, given),
    ensures
        match registry {
            None => given is Broken,
            Some(registry) => exists|at: &str, outcome: Result<ReadFileOutput, ReadFileError>|
                {
                    &&& at@ == path
                    &&& #[trigger] call_ensures(
                        C::read_file,
                        (
                            &registry.capabilities,
                            at,
                            Some(ReadFileRange { start_line: a as usize, end_line: b as usize }),
                        ),
                        outcome,
                    )
                    &&& match (outcome, given) {
                        (Ok(output), GivenView::Told { succeeded, content }) => succeeded && content
                            == output.content@,
                        (Err(error), GivenView::Told { succeeded, content }) => !succeeded
                            && names_blamed(error, content),
                        _ => false,
                    }
                },
        },
{
    law_files_are_asked_for_as_given(call, members, path);
    assert(holds_number(members, "start_line"@, a) && holds_number(members, "end_line"@, b));
    match registry {
        None => {},
        Some(registry) => {
            let result = choose|result: ToolResult|
                given == orchestration::told_of(result) && #[trigger] tools::comes_to(
                    &registry.capabilities,
                    orchestration::agent_asked(call),
                    cancellation,
                    result,
                );
            law_files_are_read_as_asked(
                &registry.capabilities,
                cancellation,
                path,
                Some(ReadFileRange { start_line: a as usize, end_line: b as usize }),
                result,
            );
        },
    }
}

/// A call that reads lines of a file comes, in a chat, to the whole of what the capabilities gave for
/// just that path and just those lines, or to an error where they gave one.
pub proof fn law_chats_read_what_they_ask<C: Capabilities>(
    registry: &tools::ToolRegistry<C>,
    cancellation: &Cancellation,
    call: ToolCallView,
    members: Map<Seq<char>, Json>,
    path: Seq<char>,
    a: u64,
    b: u64,
    result: ToolResult,
)
    requires
        call.name == "read_file"@,
        call.arguments == Json::Object(members),
        holds_text(members, "path"@, path),
        holds_number(members, "start_line"@, a),
        holds_number(members, "end_line"@, b),
        orchestration::call_comes_to(registry, cancellation, call, result),
    ensures
        exists|at: &str, outcome: Result<ReadFileOutput, ReadFileError>|
            {
                &&& at@ == path
                &&& #[trigger] call_ensures(
                    C::read_file,
                    (
                        &registry.capabilities,
                        at,
                        Some(ReadFileRange { start_line: a as usize, end_line: b as usize }),
                    ),
                    outcome,
                )
                &&& match (outcome, result.result) {
                    (Ok(output), Ok(told)) => told.content@ == output.content@,
                    (Err(_), Err(_)) => true,
                    _ => false,
                }
            },
{
    law_files_are_asked_for_as_given(call, members, path);
    assert(holds_number(members, "start_line"@, a) && holds_number(members, "end_line"@, b));
    law_files_are_read_as_asked(
        &registry.capabilities,
        cancellation,
        path,
        Some(ReadFileRange { start_line: a as usize, end_line: b as usize }),
        result,
    );
}

} // verus!
