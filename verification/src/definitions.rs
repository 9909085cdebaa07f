//! Where go-to-definition leads, for each way to write what is looked up.

use vstd::prelude::*;
use vstd::string::*;

use crate::navigate;
use crate::navigate::DefinitionQueryView;
use crate::php;
use crate::php::ProjectSymbolKind;
use crate::receiver;
use crate::symbols::PlaceView;
use crate::symbols::ProjectSymbolView;
use crate::symbols::SymbolIndex;
use crate::text;

verus! {

/// Whether a text is the name of a class as it is written in code: letters, digits, underscores and
/// backslashes.
pub open spec fn written_name(name: Seq<char>) -> bool {
    &&& name.len() > 0
    &&& forall|k: int|
        0 <= k < name.len() ==> {
            let c = #[trigger] name[k];
            (text::alphanumeric(c) || c == '_' || c == '\\') && !text::whitespace(c) && c != '$' && c
                != '-' && c != '>' && c != ':'
        }
}

/// Whether a character ends what stands before a name.
pub open spec fn apart(c: char) -> bool {
    !text::alphanumeric(c) && c != '_' && c != '$' && c != '\\' && c != '-' && c != '>'
}

/// Whether a name stands in a source right before an index, and is not part of a longer one.
pub open spec fn name_before(source: Seq<char>, name: Seq<char>, end: int) -> bool {
    &&& name.len() <= end <= source.len()
    &&& source.subrange(end - name.len(), end) == name
    &&& end > name.len() ==> apart(source[end - name.len() - 1])
}

/// Whether two characters stand in a source right before an index.
pub open spec fn operator_before(source: Seq<char>, end: int, first: char, second: char) -> bool {
    2 <= end <= source.len() && source[end - 2] == first && source[end - 1] == second
}

/// Whether no arrow stands in a source before an index.
pub open spec fn no_arrow_before(source: Seq<char>, end: int) -> bool {
    forall|k: int| 0 <= k < end - 1 ==> !(#[trigger] source[k] == '-' && source[k + 1] == '>')
}

/// Whether a text stands nowhere in another.
pub open spec fn stands_nowhere(part: Seq<char>, whole: Seq<char>) -> bool {
    forall|k: int|
        0 <= k <= whole.len() - part.len() ==> #[trigger] whole.subrange(k, k + part.len()) != part
}

/// Which class a name by itself stands for in an index: itself where the runtime has it, else the
/// class of the project of that name, else itself.
pub open spec fn stands_for<S: SymbolIndex>(index: &S, name: Seq<char>, class: Seq<char>) -> bool {
    if index.runtime_class_of(name) is Some || index.runtime_class_of("\\"@ + name) is Some {
        class == name
    } else {
        match index.project_class_of(name) {
            Some(fqn) => class == fqn,
            None => class == name,
        }
    }
}

/// Whether a method is the first of a name among some that is static, or the first that is not.
pub open spec fn first_method(
    methods: Seq<ProjectSymbolView>,
    name: Seq<char>,
    is_static: bool,
    k: int,
) -> bool {
    &&& 0 <= k < methods.len()
    &&& methods[k].name == name
    &&& methods[k].modifiers.contains("static"@) == is_static
    &&& forall|j: int|
        0 <= j < k ==> !((#[trigger] methods[j]).name == name && methods[j].modifiers.contains(
            "static"@,
        ) == is_static)
}

proof fn lemma_first_method(
    methods: Seq<ProjectSymbolView>,
    name: Seq<char>,
    is_static: bool,
    k: int,
    from: int,
)
    requires
        first_method(methods, name, is_static, k),
        0 <= from <= k,
    ensures
        navigate::member_named(methods, name, is_static, from) == Some(
            PlaceView { file: methods[k].file, start: methods[k].start },
        ),
    decreases k - from,
{
    if from < k {
        assert(!(methods[from].name == name && methods[from].modifiers.contains("static"@)
            == is_static));
        lemma_first_method(methods, name, is_static, k, from + 1);
    }
}

proof fn lemma_owner(source: Seq<char>, name: Seq<char>, end: int, at: int)
    requires
        written_name(name),
        name_before(source, name, end),
        end - name.len() <= at <= end,
    ensures
        php::owner_start(source, at) == end - name.len(),
    decreases at,
{
    let start = end - name.len();
    if at > start {
        assert(source[at - 1] == source.subrange(start, end)[at - 1 - start]);
        assert(name[at - 1 - start] == source[at - 1]);
        lemma_owner(source, name, end, at - 1);
    }
}

pub proof fn lemma_trimmed(name: Seq<char>)
    requires
        name.len() > 0,
        !text::whitespace(name[0]),
        !text::whitespace(name.last()),
    ensures
        text::trim(name) == name,
{
}

pub proof fn lemma_absent(whole: Seq<char>, part: Seq<char>, before: int)
    requires
        stands_nowhere(part, whole),
    ensures
        text::rfind_before(whole, part, before) is None,
    decreases before,
{
    if before > 0 {
        if text::occurs_at(whole, part, before - 1) {
            assert(whole.subrange(before - 1, before - 1 + part.len()) == part);
        }
        lemma_absent(whole, part, before - 1);
    }
}

proof fn lemma_absent_longer(whole: Seq<char>, part: Seq<char>, more: Seq<char>)
    requires
        stands_nowhere(part, whole),
    ensures
        stands_nowhere(part + more, whole),
{
    assert forall|k: int| 0 <= k <= whole.len() - (part + more).len() implies #[trigger] whole.subrange(
        k,
        k + (part + more).len(),
    ) != part + more by {
        let found = whole.subrange(k, k + (part + more).len());
        if found == part + more {
            assert(whole.subrange(k, k + part.len()) =~= found.subrange(0, part.len() as int));
            assert((part + more).subrange(0, part.len() as int) =~= part);
        }
    }
}

proof fn lemma_no_occurrences(whole: Seq<char>, part: Seq<char>, from: int)
    requires
        stands_nowhere(part, whole),
        0 <= from <= whole.len(),
    ensures
        text::occurrences(whole, part, from).len() == 0,
{
    text::lemma_find(whole, part, from);
    if text::find_from(whole, part, from) is Some {
        let at = text::find_from(whole, part, from)->0;
        assert(text::occurs_at(whole, part, at));
        assert(whole.subrange(at, at + part.len()) == part);
    }
}

proof fn lemma_named_class<S: SymbolIndex>(
    index: &S,
    name: Seq<char>,
    class: Seq<char>,
    context: Seq<char>,
    document: Seq<char>,
)
    requires
        written_name(name),
        stands_for(index, name, class),
        stands_nowhere("$"@ + name, context),
    ensures
        receiver::receiver_type(index, name, context, document) == Some(class),
{
    assert(!text::whitespace(name[0]));
    assert(!text::whitespace(name[name.len() - 1]));
    lemma_trimmed(name);
    reveal_strlit("->");
    assert(stands_nowhere("->"@, name)) by {
        assert forall|k: int| 0 <= k <= name.len() - "->"@.len() implies #[trigger] name.subrange(
            k,
            k + "->"@.len(),
        ) != "->"@ by {
            assert(name.subrange(k, k + "->"@.len())[0] == name[k]);
        }
    }
    lemma_absent(name, "->"@, name.len() as int + 1);
    reveal_strlit("$this");
    assert("$this"@[0] == '$');
    assert(name[0] != '$');
    let variable = "$"@ + name;
    assert(text::strip_start(name, '$') == name);
    lemma_absent_longer(context, variable, " = new "@);
    lemma_absent(context, variable + " = new "@, context.len() as int + 1);
    lemma_absent_longer(context, variable, "=new "@);
    lemma_absent(context, variable + "=new "@, context.len() as int + 1);
    lemma_absent_longer(context, variable, ": "@);
    lemma_absent(context, variable + ": "@, context.len() as int + 1);
    lemma_absent_longer(context, variable, " : "@);
    lemma_absent(context, variable + " : "@, context.len() as int + 1);
    lemma_no_occurrences(context, variable, 0);
}

proof fn lemma_last_operator(source: Seq<char>, start: int)
    requires
        0 <= start <= source.len(),
    ensures
        operator_before(source, start, '-', '>') ==> text::rfind(source.take(start), "->"@) == Some(
            start - 2,
        ),
        operator_before(source, start, ':', ':') ==> text::rfind(source.take(start), "::"@) == Some(
            start - 2,
        ),
        no_arrow_before(source, start) ==> text::rfind(source.take(start), "->"@) is None,
{
    reveal_strlit("->");
    reveal_strlit("::");
    let before = source.take(start);
    reveal_with_fuel(text::rfind_before, 4);
    if operator_before(source, start, '-', '>') {
        assert(before.subrange(start - 2, start) =~= "->"@);
        assert(text::occurs_at(before, "->"@, start - 2));
    }
    if operator_before(source, start, ':', ':') {
        assert(before.subrange(start - 2, start) =~= "::"@);
        assert(text::occurs_at(before, "::"@, start - 2));
    }
    if no_arrow_before(source, start) {
        assert(stands_nowhere("->"@, before)) by {
            assert forall|k: int| 0 <= k <= before.len() - "->"@.len() implies #[trigger] before.subrange(
                k,
                k + "->"@.len(),
            ) != "->"@ by {
                let found = before.subrange(k, k + "->"@.len());
                assert(found[0] == source[k] && found[1] == source[k + 1]);
                if found == "->"@ {
                    assert(source[k] == '-' && source[k + 1] == '>');
                }
            }
        }
        lemma_absent(before, "->"@, before.len() as int + 1);
    }
}

/// Behind the name of a class and a double colon, the definition of a name is the first static method
/// of that class of that name, where the project has one.
pub proof fn law_static_methods_are_found<S: SymbolIndex>(
    index: &S,
    source: Seq<char>,
    token: Seq<char>,
    start: int,
    name: Seq<char>,
    class: Seq<char>,
    k: int,
)
    requires
        operator_before(source, start, ':', ':'),
        written_name(name),
        name_before(source, name, start - 2),
        no_arrow_before(source, start),
        stands_nowhere("$"@ + name, source.take(start - 2)),
        stands_for(index, name, class),
        token.len() > 0,
        token[0] != '$',
        !index.project_busy(),
        first_method(index.project_methods_of(class), token, true, k),
    ensures
        navigate::native_location(index, source, token, start) == Some(
            PlaceView {
                file: index.project_methods_of(class)[k].file,
                start: index.project_methods_of(class)[k].start,
            },
        ),
{
    let at = start - 2;
    lemma_last_operator(source, start);
    lemma_owner(source, name, at, at);
    let owner = source.subrange(at - name.len(), at);
    lemma_named_class(index, name, class, source.take(at), source);
    assert(!text::whitespace(name[0]));
    assert(!text::whitespace(name[name.len() - 1]));
    lemma_trimmed(name);
    reveal_strlit("::");
    assert(source.skip(at).subrange(0, 2) =~= "::"@);
    assert(text::starts_with(source.skip(at), "::"@));
    lemma_first_method(index.project_methods_of(class), token, true, k, 0);
    assert(text::strip_start(token, '$') == token);
}

/// Behind an expression of a class and an arrow, the definition of a name is the first method of that
/// class of that name that is not static, where the project has one. The expression is the longest
/// run of names, variables and arrows before the arrow.
pub proof fn law_methods_are_found<S: SymbolIndex>(
    index: &S,
    source: Seq<char>,
    token: Seq<char>,
    start: int,
    owner: Seq<char>,
    class: Seq<char>,
    k: int,
)
    requires
        operator_before(source, start, '-', '>'),
        owner.len() <= start - 2,
        source.subrange(start - 2 - owner.len(), start - 2) == owner,
        forall|i: int| 0 <= i < owner.len() ==> !apart(#[trigger] owner[i]) && !text::whitespace(owner[i]),
        start - 2 > owner.len() ==> apart(source[start - 2 - owner.len() - 1]),
        owner.len() > 0,
        receiver::receiver_type(index, owner, source.take(start - 2), source) == Some(class),
        token.len() > 0,
        token[0] != '$',
        !index.project_busy(),
        first_method(index.project_methods_of(class), token, false, k),
    ensures
        navigate::native_location(index, source, token, start) == Some(
            PlaceView {
                file: index.project_methods_of(class)[k].file,
                start: index.project_methods_of(class)[k].start,
            },
        ),
{
    let at = start - 2;
    lemma_last_operator(source, start);
    lemma_run(source, owner, at, at);
    assert(!text::whitespace(owner[0]));
    assert(!text::whitespace(owner[owner.len() - 1]));
    lemma_trimmed(owner);
    reveal_strlit("::");
    assert("::"@[0] == ':');
    assert(!text::starts_with(source.skip(at), "::"@)) by {
        if text::starts_with(source.skip(at), "::"@) {
            assert(source.skip(at).subrange(0, 2)[0] == source[at]);
        }
    }
    lemma_first_method(index.project_methods_of(class), token, false, k, 0);
    assert(text::strip_start(token, '$') == token);
}

pub proof fn lemma_run(source: Seq<char>, owner: Seq<char>, end: int, at: int)
    requires
        owner.len() <= end <= source.len(),
        source.subrange(end - owner.len(), end) == owner,
        forall|i: int| 0 <= i < owner.len() ==> !apart(#[trigger] owner[i]),
        end > owner.len() ==> apart(source[end - owner.len() - 1]),
        end - owner.len() <= at <= end,
    ensures
        php::owner_start(source, at) == end - owner.len(),
    decreases at,
{
    let start = end - owner.len();
    if at > start {
        assert(source[at - 1] == source.subrange(start, end)[at - 1 - start]);
        assert(!apart(owner[at - 1 - start]));
        lemma_run(source, owner, end, at - 1);
    }
}

/// Whether a text ends with another.
pub open spec fn ends(s: Seq<char>, end: Seq<char>) -> bool {
    end.len() <= s.len() && s.skip(s.len() - end.len()) == end
}

proof fn lemma_ends(s: Seq<char>, end: Seq<char>)
    ensures
        text::ends_with(s, end) == ends(s, end),
{
    if end.len() <= s.len() {
        assert(s.skip(s.len() - end.len()) =~= s.subrange(s.len() - end.len(), s.len() as int));
    }
}

/// A name that stands by itself, with no member operator anywhere before it, is found as a function of
/// the runtime; else, unless the index of the project is busy, as the first function of the project of
/// that name, as a class of the project, or as a class of the runtime.
pub proof fn law_names_are_found<S: SymbolIndex>(
    index: &S,
    source: Seq<char>,
    token: Seq<char>,
    start: int,
    k: int,
)
    requires
        0 <= start <= source.len(),
        token.len() > 0,
        token[0] != '$',
        no_arrow_before(source, start),
        forall|i: int|
            0 <= i < start - 1 ==> !(#[trigger] source[i] == ':' && source[i + 1] == ':'),
    ensures
        ({
            let place = navigate::native_location(index, source, token, start);
            let project = index.project_all();
            let function = 0 <= k < project.len() && project[k].kind
                == ProjectSymbolKind::Function && project[k].name == token && forall|j: int|
                0 <= j < k ==> !((#[trigger] project[j]).kind == ProjectSymbolKind::Function
                    && project[j].name == token);
            let no_function = forall|j: int|
                0 <= j < project.len() ==> !((#[trigger] project[j]).kind
                    == ProjectSymbolKind::Function && project[j].name == token);
            match index.runtime_function_of(token) {
                Some(symbol) => place == Some(
                    PlaceView { file: symbol.file, start: symbol.start },
                ),
                None => {
                    &&& index.project_busy() ==> place is None
                    &&& !index.project_busy() && function ==> place == Some(
                        PlaceView { file: project[k].file, start: project[k].start },
                    )
                    &&& !index.project_busy() && no_function ==> {
                        &&& index.project_class_at(token) is Some ==> place
                            == index.project_class_at(token)
                        &&& index.project_class_at(token) is None ==> {
                            &&& index.runtime_class_at(token) is Some ==> place
                                == index.runtime_class_at(token)
                            &&& index.runtime_class_at(token) is None ==> place
                                == index.runtime_class_called_at(token)
                        }
                    }
                },
            }
        }),
{
    lemma_last_operator(source, start);
    reveal_strlit("::");
    let before = source.take(start);
    assert(stands_nowhere("::"@, before)) by {
        assert forall|i: int| 0 <= i <= before.len() - "::"@.len() implies #[trigger] before.subrange(
            i,
            i + "::"@.len(),
        ) != "::"@ by {
            let found = before.subrange(i, i + "::"@.len());
            assert(found[0] == source[i] && found[1] == source[i + 1]);
            if found == "::"@ {
                assert(source[i] == ':' && source[i + 1] == ':');
            }
        }
    }
    lemma_absent(before, "::"@, before.len() as int + 1);
    assert(text::strip_start(token, '$') == token);
    lemma_function(index.project_all(), token, k, 0);
}

proof fn lemma_function(project: Seq<ProjectSymbolView>, name: Seq<char>, k: int, from: int)
    requires
        0 <= from,
    ensures
        from <= k < project.len() && project[k].kind == ProjectSymbolKind::Function
            && project[k].name == name && (forall|j: int|
            from <= j < k ==> !((#[trigger] project[j]).kind == ProjectSymbolKind::Function
                && project[j].name == name)) ==> navigate::function_named(project, name, from)
            == Some(PlaceView { file: project[k].file, start: project[k].start }),
        (forall|j: int|
            from <= j < project.len() ==> !((#[trigger] project[j]).kind
                == ProjectSymbolKind::Function && project[j].name == name))
            ==> navigate::function_named(project, name, from) is None,
    decreases project.len() - from,
{
    if from < project.len() {
        lemma_function(project, name, k, from + 1);
    }
}

/// Where the index has no method of a class, the only method of that name in the project is found; and
/// where there is none or more than one, the first of the runtime class.
pub proof fn law_only_methods_are_found<S: SymbolIndex>(
    index: &S,
    class: Seq<char>,
    name: Seq<char>,
    is_static: bool,
    k: int,
)
    requires
        forall|j: int|
            0 <= j < index.project_methods_of(class).len() ==> !((
            #[trigger] index.project_methods_of(class)[j]).name == name
                && index.project_methods_of(class)[j].modifiers.contains("static"@) == is_static),
        0 <= k < index.project_all().len(),
        index.project_all()[k].kind == ProjectSymbolKind::Method,
        index.project_all()[k].name == name,
        forall|j: int|
            0 <= j < index.project_all().len() && j != k ==> !((#[trigger] index.project_all()[j]).kind
                == ProjectSymbolKind::Method && index.project_all()[j].name == name),
        !index.project_busy(),
    ensures
        navigate::member_place(index, class, name, is_static) == Some(
            PlaceView { file: index.project_all()[k].file, start: index.project_all()[k].start },
        ),
{
    let project = index.project_all();
    lemma_no_method(index.project_methods_of(class), name, is_static, 0);
    let keep = |s: ProjectSymbolView| navigate::is_method(s, name);
    let at = text::lemma_filter_positions(project, keep);
    assert(keep(project[k]));
    assert(at.contains(k));
    let i = choose|i: int| 0 <= i < at.len() && at[i] == k;
    if at.len() > 1 {
        let j = if i == 0 {
            1int
        } else {
            0
        };
        assert(at[j] != at[i]) by {
            if i < j {
                assert(at[i] < at[j]);
            } else {
                assert(at[j] < at[i]);
            }
        }
        assert(keep(project[at[j]]));
    }
    assert(project.filter(keep)[0] == project[k]);
}

proof fn lemma_no_method(
    methods: Seq<ProjectSymbolView>,
    name: Seq<char>,
    is_static: bool,
    from: int,
)
    requires
        0 <= from,
        forall|j: int|
            0 <= j < methods.len() ==> !((#[trigger] methods[j]).name == name
                && methods[j].modifiers.contains("static"@) == is_static),
    ensures
        navigate::member_named(methods, name, is_static, from) is None,
    decreases methods.len() - from,
{
    if from < methods.len() {
        assert(!(methods[from].name == name && methods[from].modifiers.contains("static"@)
            == is_static));
        lemma_no_method(methods, name, is_static, from + 1);
    }
}

/// Right behind the name of a class and a double colon a static method of that class is asked for, and
/// right behind a variable of a class and an arrow a method of that class.
pub proof fn law_members_are_asked_for<S: SymbolIndex>(
    index: &S,
    source: Seq<char>,
    token: Seq<char>,
    start: int,
    end: int,
    owner: Seq<char>,
    class: Seq<char>,
)
    requires
        2 <= start <= end <= source.len(),
        token.len() > 0,
        token[0] != '$',
        owner.len() > 0,
    ensures
        operator_before(source, start, ':', ':') && written_name(owner) && name_before(
            source,
            owner,
            start - 2,
        ) ==> navigate::query_for(index, source, token, start, end, false) == Some(
            DefinitionQueryView::Method {
                owner_fqn: php::resolve(owner, text::lines(source)),
                name: token,
                is_static: true,
                chain: Seq::empty(),
            },
        ),
        operator_before(source, start, '-', '>') && owner[0] == '$' && written_name(owner.skip(1))
            && run_of(source, owner, start - 2) && receiver::receiver_type(
            index,
            owner,
            source.take(start),
            source,
        ) == Some(class) ==> navigate::query_for(index, source, token, start, end, false) == Some(
            DefinitionQueryView::Method {
                owner_fqn: class,
                name: token,
                is_static: false,
                chain: Seq::empty(),
            },
        ),
{
    let before = source.take(start);
    let at = start - 2;
    reveal_strlit("->");
    reveal_strlit("::");
    reveal_strlit("$");
    lemma_ends(before, "->"@);
    lemma_ends(before, "::"@);
    let tail = before.skip(start - 2);
    assert(tail[0] == source[start - 2] && tail[1] == source[start - 1]);
    assert(text::strip_start(token, '$') == token);
    if operator_before(source, start, ':', ':') && written_name(owner) && name_before(
        source,
        owner,
        at,
    ) {
        assert(text::trim_end(before) == before);
        assert(tail =~= "::"@);
        assert(tail[0] != "->"@[0]);
        assert(name_before(before, owner, at)) by {
            assert(before.subrange(at - owner.len(), at) =~= source.subrange(
                at - owner.len(),
                at,
            ));
        }
        lemma_owner(before, owner, at, at);
        assert(!text::whitespace(owner[0]));
        assert(!text::whitespace(owner[owner.len() - 1]));
        lemma_trimmed(owner);
        assert(!text::starts_with(owner, "$"@)) by {
            assert(owner[0] != '$');
            if text::starts_with(owner, "$"@) {
                assert(owner.subrange(0, 1)[0] == owner[0]);
            }
        }
    }
    if operator_before(source, start, '-', '>') && owner[0] == '$' && written_name(owner.skip(1))
        && run_of(source, owner, at) {
        assert(text::trim_end(before) == before);
        assert(tail =~= "->"@);
        assert(before.subrange(at - owner.len(), at) =~= source.subrange(at - owner.len(), at));
        assert forall|i: int| 0 <= i < owner.len() implies !apart(#[trigger] owner[i])
            && !text::whitespace(owner[i]) && owner[i] != '-' by {
            if i > 0 {
                assert(owner[i] == owner.skip(1)[i - 1]);
            }
        }
        lemma_run(before, owner, at, at);
        assert(!text::whitespace(owner[owner.len() - 1]));
        lemma_trimmed(owner);
        assert(owner.subrange(0, 1) =~= "$"@);
        assert(text::starts_with(owner, "$"@));
        text::lemma_find(owner, "->"@, 0);
        assert(text::find_from(owner, "->"@, 0) is None) by {
            if text::find_from(owner, "->"@, 0) is Some {
                let k = text::find_from(owner, "->"@, 0)->0;
                assert(text::occurs_at(owner, "->"@, k));
                assert(owner.subrange(k, k + 2)[0] == owner[k]);
            }
        }
        let parts = text::split_text(owner, "->"@);
        assert(parts =~= seq![owner]);
        assert(parts.skip(1) =~= Seq::<Seq<char>>::empty());
        assert(php::chain_methods(parts.skip(1)) =~= Seq::<Seq<char>>::empty());
    }
}

/// Whether a variable stands in a source right before an index, and is not part of a longer
/// expression.
pub open spec fn run_of(source: Seq<char>, owner: Seq<char>, end: int) -> bool {
    &&& owner.len() <= end <= source.len()
    &&& source.subrange(end - owner.len(), end) == owner
    &&& end > owner.len() ==> apart(source[end - owner.len() - 1])
}

/// Elsewhere than behind a member operator, a name before a parenthesis is asked for as a function,
/// unless it stands behind `new`; any other name is asked for as the class that it stands for.
pub proof fn law_other_names_are_asked_for<S: SymbolIndex>(
    index: &S,
    source: Seq<char>,
    token: Seq<char>,
    start: int,
    end: int,
)
    requires
        0 <= start <= end <= source.len(),
        token.len() > 0,
        token[0] != '$',
        !ends(text::trim_end(source.take(start)), "->"@),
        !ends(text::trim_end(source.take(start)), "::"@),
    ensures
        ({
            let query = navigate::query_for(index, source, token, start, end, false);
            let called = end < source.len() && source[end] == '(';
            let made = ends(text::trim_end(source.take(start)), "new"@);
            if called && !made {
                query == Some(DefinitionQueryView::Function)
            } else {
                query == Some(
                    DefinitionQueryView::Name { fqn: php::resolve(token, text::lines(source)) },
                )
            }
        }),
{
    let head = text::trim_end(source.take(start));
    lemma_ends(head, "->"@);
    lemma_ends(head, "::"@);
    lemma_ends(head, "new"@);
    reveal_strlit("(");
    let behind = source.skip(end);
    if end < source.len() {
        assert(behind.subrange(0, 1)[0] == source[end]);
        if source[end] == '(' {
            assert(behind.subrange(0, 1) =~= "("@);
        }
    }
    assert(text::strip_start(token, '$') == token);
}

} // verus!
