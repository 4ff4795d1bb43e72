//! BM25-based tool discovery and search.
//!
//! When `tool_discovery = true` is set in the proxy config, all tools from all
//! backends are indexed using jpx-engine's BM25 search, and discovery tools are
//! offered under the `proxy/` namespace:
//!
//! - `proxy/search_tools` -- Full-text search across tool names, descriptions, and tags
//! - `proxy/similar_tools` -- Find tools related to a given tool
//! - `proxy/tool_categories` -- Browse tools by backend category

use vstd::prelude::*;
use vstd::string::*;

use crate::float::Float;
use crate::json::{
    as_array, as_object, as_str, get, json_field, json_items, json_members, json_string,
    named_values,
};
use crate::protocol::ToolAnnotations;
use crate::text::{
    clone_optional, is_blank, is_white_space, optional, pieces, same_text, split_first, split_once,
    texts, texts_are_split_at_the_first_delimiter, trims_to, white_space,
};

verus! {

#[verifier::external_type_specification]
#[verifier::external_body]
pub struct ExDiscoveryRegistry(jpx_engine::DiscoveryRegistry);

#[verifier::external_type_specification]
#[verifier::external_body]
pub struct ExToolSpec(jpx_engine::ToolSpec);

#[verifier::external_type_specification]
#[verifier::external_body]
pub struct ExParamSpec(jpx_engine::ParamSpec);

/// The definition of a tool, as far as the index reads it.
#[derive(Debug)]
pub struct ToolDefinition {
    /// The namespaced name.
    pub name: String,
    /// What the tool does.
    pub description: Option<String>,
    /// JSON Schema describing accepted arguments.
    pub input_schema: serde_json::Value,
    /// What the tool says of its behavior.
    pub annotations: Option<ToolAnnotations>,
}

/// A parameter of a tool.
#[derive(Debug)]
pub struct IndexedParam {
    /// Parameter name.
    pub name: String,
    /// Parameter type, where the schema gives one.
    pub param_type: Option<String>,
    /// Whether the parameter is required.
    pub required: bool,
    /// Parameter description.
    pub description: Option<String>,
}

/// A tool, as it is indexed.
#[derive(Debug)]
pub struct IndexedTool {
    /// The name without the namespace.
    pub name: String,
    /// The namespace.
    pub category: Option<String>,
    /// Tags for search.
    pub tags: Vec<String>,
    /// What the tool does, in short.
    pub summary: Option<String>,
    /// What the tool does.
    pub description: Option<String>,
    /// The parameters.
    pub params: Vec<IndexedParam>,
}

/// What a parameter says.
pub ghost struct ParamView {
    /// Parameter name.
    pub name: Seq<char>,
    /// Parameter type.
    pub param_type: Option<Seq<char>>,
    /// Whether the parameter is required.
    pub required: bool,
    /// Parameter description.
    pub description: Option<Seq<char>>,
}

/// What an indexed tool says.
pub ghost struct ToolView {
    /// The name without the namespace.
    pub name: Seq<char>,
    /// The namespace.
    pub category: Option<Seq<char>>,
    /// A part of the namespace.
    pub subcategory: Option<Seq<char>>,
    /// Tags for search.
    pub tags: Seq<Seq<char>>,
    /// What the tool does, in short.
    pub summary: Option<Seq<char>>,
    /// What the tool does.
    pub description: Option<Seq<char>>,
    /// The parameters.
    pub params: Seq<ParamView>,
}

impl View for IndexedParam {
    type V = ParamView;

    open spec fn view(&self) -> ParamView {
        ParamView {
            name: self.name@,
            param_type: optional(self.param_type),
            required: self.required,
            description: optional(self.description),
        }
    }
}

/// What the parameters in a vector say.
pub open spec fn param_views(params: Seq<IndexedParam>) -> Seq<ParamView> {
    params.map_values(|p: IndexedParam| p@)
}

impl View for IndexedTool {
    type V = ToolView;

    open spec fn view(&self) -> ToolView {
        ToolView {
            name: self.name@,
            category: optional(self.category),
            subcategory: None,
            tags: texts(self.tags@),
            summary: optional(self.summary),
            description: optional(self.description),
            params: param_views(self.params@),
        }
    }
}

/// The string in a member of a JSON object.
pub open spec fn string_field(value: serde_json::Value, name: Seq<char>) -> Option<Seq<char>> {
    match json_field(value, name) {
        Some(field) => json_string(field),
        None => None,
    }
}

/// A JSON Schema lists a name among its required properties.
pub open spec fn is_required(schema: serde_json::Value, name: Seq<char>) -> bool {
    match json_field(schema, "required"@) {
        Some(required) => match json_items(required) {
            Some(items) => exists|i: int|
                0 <= i < items.len() && json_string(#[trigger] items[i]) == Some(name),
            None => false,
        },
        None => false,
    }
}

/// A property of a JSON Schema, as a parameter.
pub open spec fn param_of(
    schema: serde_json::Value,
    name: Seq<char>,
    property: serde_json::Value,
) -> ParamView {
    ParamView {
        name,
        param_type: string_field(property, "type"@),
        required: is_required(schema, name),
        description: string_field(property, "description"@),
    }
}

/// The properties of a JSON Schema, as parameters.
pub open spec fn schema_params(schema: serde_json::Value) -> Seq<ParamView> {
    match json_field(schema, "properties"@) {
        Some(properties) => match json_members(properties) {
            Some(members) => members.map_values(
                |m: (Seq<char>, serde_json::Value)| param_of(schema, m.0, m.1),
            ),
            None => Seq::empty(),
        },
        None => Seq::empty(),
    }
}

fn get_string(value: &serde_json::Value, name: &str) -> (text: Option<String>)
    ensures
        optional(text) == string_field(*value, name@),
{
    match get(value, name) {
        Some(field) => match as_str(field) {
            Some(text) => Some(text.to_owned()),
            None => None,
        },
        None => None,
    }
}

fn holds_string(items: &Vec<serde_json::Value>, name: &str) -> (found: bool)
    ensures
        found == exists|i: int|
            0 <= i < items@.len() && json_string(#[trigger] items@[i]) == Some(name@),
{
    let mut i: usize = 0;
    while i < items.len()
        invariant
            i <= items@.len(),
            forall|j: int| 0 <= j < i ==> json_string(#[trigger] items@[j]) != Some(name@),
        decreases items@.len() - i,
    {
        if let Some(text) = as_str(&items[i]) {
            if same_text(text, name) {
                assert(json_string(items@[i as int]) == Some(name@));
                return true;
            }
        }
        i = i + 1;
    }
    false
}

fn required_in(schema: &serde_json::Value, name: &str) -> (required: bool)
    ensures
        required == is_required(*schema, name@),
{
    match get(schema, "required") {
        Some(required) => match as_array(required) {
            Some(items) => holds_string(items, name),
            None => false,
        },
        None => false,
    }
}

/// Extract parameter specs from a JSON Schema input_schema.
pub fn extract_params(schema: &serde_json::Value) -> (params: Vec<IndexedParam>)
    ensures
        param_views(params@) == schema_params(*schema),
{
    let mut params: Vec<IndexedParam> = Vec::new();
    assert(param_views(params@) =~= Seq::empty());
    let members = match get(schema, "properties") {
        Some(properties) => match as_object(properties) {
            Some(members) => members,
            None => return params,
        },
        None => return params,
    };
    let mut i: usize = 0;
    while i < members.len()
        invariant
            i <= members@.len(),
            params@.len() == i,
            forall|j: int|
                0 <= j < i ==> (#[trigger] params@[j])@ == param_of(
                    *schema,
                    members@[j].0@,
                    *members@[j].1,
                ),
        decreases members@.len() - i,
    {
        let name = members[i].0.as_str();
        let property = members[i].1;
        params.push(
            IndexedParam {
                name: members[i].0.clone(),
                param_type: get_string(property, "type"),
                required: required_in(schema, name),
                description: get_string(property, "description"),
            },
        );
        i = i + 1;
    }
    proof {
        let pairs = named_values(members@);
        assert(param_views(params@) =~= pairs.map_values(
            |m: (Seq<char>, serde_json::Value)| param_of(*schema, m.0, m.1),
        ));
    }
    params
}

/// The namespace of a tool, where its name has one.
pub open spec fn category_of(name: Seq<char>, separator: Seq<char>) -> Option<Seq<char>> {
    match split_first(name, separator) {
        Some((namespace, _)) => Some(namespace),
        None => None,
    }
}

/// The group in which a tool is indexed: its namespace, or the default one.
pub open spec fn namespace_of(name: Seq<char>, separator: Seq<char>) -> Seq<char> {
    match category_of(name, separator) {
        Some(namespace) => namespace,
        None => "default"@,
    }
}

/// The name of a tool without its namespace.
pub open spec fn local_of(name: Seq<char>, separator: Seq<char>) -> Seq<char> {
    match split_first(name, separator) {
        Some((_, local)) => local,
        None => name,
    }
}

/// A tag where it applies.
pub open spec fn tag_if(applies: bool, tag: Seq<char>) -> Seq<Seq<char>> {
    if applies {
        seq![tag]
    } else {
        Seq::empty()
    }
}

/// The tags that the annotations of a tool give.
pub open spec fn tags_of(annotations: Option<ToolAnnotations>) -> Seq<Seq<char>> {
    match annotations {
        Some(a) => tag_if(a.destructive_hint, "destructive"@) + tag_if(
            a.read_only_hint,
            "read-only"@,
        ) + tag_if(a.idempotent_hint, "idempotent"@) + tag_if(a.open_world_hint, "open-world"@),
        None => Seq::empty(),
    }
}

/// A tool, as it is indexed. Its description is its summary too.
pub open spec fn indexed(tool: ToolDefinition, separator: Seq<char>) -> ToolView {
    ToolView {
        name: local_of(tool.name@, separator),
        category: category_of(tool.name@, separator),
        subcategory: None,
        tags: tags_of(tool.annotations),
        summary: optional(tool.description),
        description: optional(tool.description),
        params: schema_params(tool.input_schema),
    }
}

fn push_tag(tags: &mut Vec<String>, applies: bool, tag: &str)
    ensures
        texts(final(tags)@) == texts(old(tags)@) + tag_if(applies, tag@),
{
    if applies {
        tags.push(tag.to_owned());
        assert(texts(tags@) =~= texts(old(tags)@) + seq![tag@]);
    } else {
        assert(texts(tags@) =~= texts(old(tags)@) + Seq::empty());
    }
}

/// Convert an MCP ToolDefinition to a tool spec for indexing.
pub fn tool_definition_to_spec(tool: &ToolDefinition, separator: &str) -> (spec: IndexedTool)
    ensures
        spec@ == indexed(*tool, separator@),
{
    // Extract the local tool name (without namespace prefix) and the category
    let (name, category) = match split_once(tool.name.as_str(), separator) {
        Some((namespace, local)) => (local.to_owned(), Some(namespace.to_owned())),
        None => (tool.name.clone(), None),
    };
    // Extract tags from annotations if available
    let mut tags: Vec<String> = Vec::new();
    assert(texts(tags@) =~= Seq::empty());
    if let Some(annotations) = &tool.annotations {
        push_tag(&mut tags, annotations.destructive_hint, "destructive");
        push_tag(&mut tags, annotations.read_only_hint, "read-only");
        push_tag(&mut tags, annotations.idempotent_hint, "idempotent");
        push_tag(&mut tags, annotations.open_world_hint, "open-world");
    }
    assert(texts(tags@) =~= tags_of(tool.annotations));
    IndexedTool {
        name,
        category,
        tags,
        summary: clone_optional(&tool.description),
        description: clone_optional(&tool.description),
        params: extract_params(&tool.input_schema),
    }
}

/// The tools that a registry holds, by their identifiers, each with the server
/// for which it was registered.
pub uninterp spec fn registry_tools(registry: jpx_engine::DiscoveryRegistry) -> Map<
    Seq<char>,
    (Seq<char>, ToolView),
>;

/// What a tool in the form of the registry says.
pub uninterp spec fn registry_form(tool: jpx_engine::ToolSpec) -> ToolView;

/// What a parameter in the form of the registry says.
pub uninterp spec fn registry_param(param: jpx_engine::ParamSpec) -> ParamView;

/// No tools.
pub open spec fn no_tools() -> Map<Seq<char>, (Seq<char>, ToolView)> {
    Map::empty()
}

/// The identifier of a tool in the registry.
pub open spec fn tool_id(server: Seq<char>, name: Seq<char>) -> Seq<char> {
    server + ":"@ + name
}

/// The tools of all servers but one.
pub open spec fn without_server(
    tools: Map<Seq<char>, (Seq<char>, ToolView)>,
    server: Seq<char>,
) -> Map<Seq<char>, (Seq<char>, ToolView)> {
    Map::new(|id: Seq<char>| tools.contains_key(id) && tools[id].0 != server, |id| tools[id])
}

/// The tools after those of a server were replaced.
pub open spec fn registered(
    before: Map<Seq<char>, (Seq<char>, ToolView)>,
    server: Seq<char>,
    tools: Seq<ToolView>,
) -> Map<Seq<char>, (Seq<char>, ToolView)>
    decreases tools.len(),
{
    if tools.len() == 0 {
        without_server(before, server)
    } else {
        registered(before, server, tools.drop_last()).insert(
            tool_id(server, tools.last().name),
            (server, tools.last()),
        )
    }
}

/// What the parameters in a vector say, in the form of the registry.
pub open spec fn registry_params(params: Seq<jpx_engine::ParamSpec>) -> Seq<ParamView> {
    params.map_values(|p: jpx_engine::ParamSpec| registry_param(p))
}

/// What the tools in a vector say, in the form of the registry.
pub open spec fn registry_forms(tools: Seq<jpx_engine::ToolSpec>) -> Seq<ToolView> {
    tools.map_values(|t: jpx_engine::ToolSpec| registry_form(t))
}

/// `jpx_engine::DiscoveryRegistry::new`: a registry without tools.
#[verifier::external_body]
pub(crate) fn new_registry() -> (registry: jpx_engine::DiscoveryRegistry)
    ensures
        registry_tools(registry) == no_tools(),
{
    jpx_engine::DiscoveryRegistry::new()
}

/// A parameter as a `jpx_engine::ParamSpec`: the fields are taken over, those
/// that a parameter does not have stay empty.
#[verifier::external_body]
fn to_registry_param(param: IndexedParam) -> (result: jpx_engine::ParamSpec)
    ensures
        registry_param(result) == param@,
{
    jpx_engine::ParamSpec {
        name: param.name,
        param_type: param.param_type,
        required: param.required,
        description: param.description,
        enum_values: None,
        default: None,
    }
}

/// A tool as a `jpx_engine::ToolSpec`: the fields are taken over, those that a
/// tool does not have stay empty.
#[verifier::external_body]
fn to_registry_form(tool: IndexedTool, params: Vec<jpx_engine::ParamSpec>) -> (result:
    jpx_engine::ToolSpec)
    ensures
        registry_form(result) == (ToolView { params: registry_params(params@), ..tool@ }),
{
    jpx_engine::ToolSpec {
        name: tool.name,
        category: tool.category,
        tags: tool.tags,
        summary: tool.summary,
        description: tool.description,
        params,
        aliases: vec![], subcategory: None, returns: None, examples: vec![],
        related: vec![], since: None, stability: None,
    }
}

/// A text can be indexed: of its pieces between backticks, none that follows
/// an opening backtick is, apart from white space, a lone double quote.
pub open spec fn indexable(text: Seq<char>) -> bool {
    forall|i: int|
        0 <= i < pieces(text, '`').len() && i % 2 == 1 ==> !trims_to(
            #[trigger] pieces(text, '`')[i],
            '"',
        )
}

/// The text, where there is one, can be indexed.
pub open spec fn indexable_if_any(text: Option<Seq<char>>) -> bool {
    text matches Some(t) ==> indexable(t)
}

/// The descriptions of tools can be indexed.
pub open spec fn have_indexable_texts(tools: Seq<ToolDefinition>) -> bool {
    forall|i: int|
        0 <= i < tools.len() ==> indexable_if_any(optional((#[trigger] tools[i]).description))
}

/// What a piece of a text holds apart from white space.
#[derive(Clone, Copy, PartialEq, Eq, Structural)]
enum Content {
    /// Nothing.
    Blank,
    /// A lone double quote.
    Quote,
    /// Anything else.
    Other,
}

/// The content is that of a piece.
spec fn is_content(content: Content, piece: Seq<char>) -> bool {
    match content {
        Content::Blank => is_blank(piece),
        Content::Quote => trims_to(piece, '"'),
        Content::Other => !is_blank(piece) && !trims_to(piece, '"'),
    }
}

proof fn lemma_content(piece: Seq<char>, c: char)
    ensures
        is_blank(piece) && is_white_space(c) ==> is_blank(piece.push(c)),
        is_blank(piece) && c == '"' ==> trims_to(piece.push(c), '"'),
        is_blank(piece) && c != '"' && !is_white_space(c) ==> !is_blank(piece.push(c))
            && !trims_to(piece.push(c), '"'),
        trims_to(piece, '"') ==> !is_blank(piece),
        trims_to(piece, '"') && is_white_space(c) ==> trims_to(piece.push(c), '"'),
        !is_blank(piece) && !is_white_space(c) ==> !trims_to(piece.push(c), '"'),
        !is_blank(piece) ==> !is_blank(piece.push(c)),
        !is_blank(piece) && !trims_to(piece, '"') ==> !trims_to(piece.push(c), '"'),
{
    let longer = piece.push(c);
    let n = piece.len() as int;
    assert(!is_white_space('"'));
    assert(longer[n] == c);
    assert(longer.take(n) =~= piece);
    if is_blank(longer) {
        assert forall|i: int| 0 <= i < n implies is_white_space(#[trigger] piece[i]) by {
            assert(longer[i] == piece[i]);
        }
    }
    if trims_to(piece, '"') {
        let i = choose|i: int|
            0 <= i < n && #[trigger] piece[i] == '"' && is_blank(piece.take(i)) && is_blank(
                piece.skip(i + 1),
            );
        assert(piece[i] == '"');
        if is_white_space(c) {
            assert(longer[i] == '"');
            assert(longer.take(i) =~= piece.take(i));
            assert(longer.skip(i + 1) =~= piece.skip(i + 1).push(c));
        }
    }
    if is_blank(piece) && c == '"' {
        assert(longer.skip(n + 1) =~= Seq::empty());
        assert(trims_to(longer, '"'));
    }
    if trims_to(longer, '"') {
        let i = choose|i: int|
            0 <= i < longer.len() && #[trigger] longer[i] == '"' && is_blank(longer.take(i))
                && is_blank(longer.skip(i + 1));
        if i < n {
            let rest = longer.skip(i + 1);
            assert(rest[n - i - 1] == c);
            assert(piece[i] == '"');
            assert(piece.take(i) =~= longer.take(i));
            assert forall|k: int| 0 <= k < piece.skip(i + 1).len() implies is_white_space(
                #[trigger] piece.skip(i + 1)[k],
            ) by {
                assert(rest[k] == piece.skip(i + 1)[k]);
            }
            assert(trims_to(piece, '"'));
        } else {
            assert(longer.take(i) =~= piece);
        }
    }
}

fn content_with(content: Content, c: char) -> (result: Content)
    ensures
        forall|piece: Seq<char>| #[trigger]
            is_content(content, piece) ==> is_content(result, piece.push(c)),
{
    proof {
        assert forall|piece: Seq<char>| #[trigger] is_content(content, piece) implies {
            &&& is_white_space(c) ==> is_content(content, piece.push(c))
            &&& !is_white_space(c) && c == '"' && content is Blank ==> is_content(
                Content::Quote,
                piece.push(c),
            )
            &&& !is_white_space(c) && !(c == '"' && content is Blank) ==> is_content(
                Content::Other,
                piece.push(c),
            )
        } by {
            lemma_content(piece, c);
        }
    }
    if white_space(c) {
        content
    } else if c == '"' && content == Content::Blank {
        Content::Quote
    } else {
        Content::Other
    }
}

/// Whether a text can be indexed.
pub fn is_indexable(text: &str) -> (yes: bool)
    ensures
        yes == indexable(text@),
{
    let n: usize = text.unicode_len();
    let mut odd: bool = false;
    let mut content: Content = Content::Blank;
    let mut i: usize = 0;
    let mut fine: bool = true;
    assert(text@.take(0) =~= Seq::empty());
    while i < n
        invariant
            n == text@.len(),
            i <= n,
            pieces(text@.take(i as int), '`').len() > 0,
            odd == (pieces(text@.take(i as int), '`').len() % 2 == 0),
            is_content(content, pieces(text@.take(i as int), '`').last()),
            fine == forall|j: int|
                0 <= j < pieces(text@.take(i as int), '`').len() - 1 && j % 2 == 1 ==> !trims_to(
                    #[trigger] pieces(text@.take(i as int), '`')[j],
                    '"',
                ),
        decreases n - i,
    {
        let c: char = text.get_char(i);
        let ghost before = pieces(text@.take(i as int), '`');
        let ghost after = pieces(text@.take(i + 1), '`');
        let ghost last = before.len() - 1;
        proof {
            assert(text@.take(i + 1).drop_last() =~= text@.take(i as int));
            assert(text@.take(i + 1).last() == c);
            lemma_content(before.last(), ' ');
        }
        if c == '`' {
            if odd && content == Content::Quote {
                proof {
                    assert(after[last] == before[last]);
                    assert(last % 2 == 1);
                }
                fine = false;
            } else {
                proof {
                    assert(odd ==> !trims_to(before[last], '"'));
                    assert(fine == forall|j: int|
                        0 <= j < after.len() - 1 && j % 2 == 1 ==> !trims_to(
                            #[trigger] after[j],
                            '"',
                        )) by {
                        if fine {
                            assert forall|j: int| 0 <= j < after.len() - 1 && j % 2 == 1 implies
                                !trims_to(#[trigger] after[j], '"') by {
                                assert(after[j] == before[j]);
                            }
                        } else {
                            let j = choose|j: int|
                                0 <= j < before.len() - 1 && j % 2 == 1 && trims_to(
                                    #[trigger] before[j],
                                    '"',
                                );
                            assert(after[j] == before[j]);
                        }
                    }
                }
            }
            content = Content::Blank;
            odd = !odd;
        } else {
            content = content_with(content, c);
            proof {
                assert(after.len() == before.len());
                if fine {
                    assert forall|j: int| 0 <= j < after.len() - 1 && j % 2 == 1 implies !trims_to(
                        #[trigger] after[j],
                        '"',
                    ) by {
                        assert(after[j] == before[j]);
                    }
                } else {
                    let j = choose|j: int|
                        0 <= j < before.len() - 1 && j % 2 == 1 && trims_to(
                            #[trigger] before[j],
                            '"',
                        );
                    assert(after[j] == before[j]);
                }
            }
        }
        i = i + 1;
    }
    proof {
        assert(text@.take(n as int) =~= text@);
        let all = pieces(text@, '`');
        lemma_content(all.last(), ' ');
        assert(all.last() == all[all.len() - 1]);
        if fine && !(odd && content == Content::Quote) {
            assert forall|j: int| 0 <= j < all.len() && j % 2 == 1 implies !trims_to(
                #[trigger] all[j],
                '"',
            ) by {}
        }
    }
    fine && !(odd && content == Content::Quote)
}

/// `jpx_engine::DiscoveryRegistry::register` with replacement: the tools of a
/// server are taken out, and the given ones are put in one after the other,
/// each under the name of the server, a colon and its own name. `register`
/// prepares summaries and descriptions for search, and panics where a literal
/// between backticks is a lone double quote.
#[verifier::external_body]
fn register(
    registry: &mut jpx_engine::DiscoveryRegistry,
    server: &str,
    tools: Vec<jpx_engine::ToolSpec>,
)
    requires
        forall|i: int|
            0 <= i < tools@.len() ==> {
                &&& indexable_if_any(registry_form(#[trigger] tools@[i]).summary)
                &&& indexable_if_any(registry_form(tools@[i]).description)
            },
    ensures
        registry_tools(*final(registry)) == registered(
            registry_tools(*old(registry)),
            server@,
            registry_forms(tools@),
        ),
{
    let server = jpx_engine::ServerInfo {
        name: server.to_string(),
        version: None,
        description: None,
    };
    let categories = std::collections::HashMap::new();
    let spec = jpx_engine::DiscoverySpec { schema: None, server, tools, categories };
    registry.register(spec, true);
}

/// The tools of a namespace.
#[derive(Debug)]
pub struct ToolGroup {
    /// The namespace.
    pub namespace: String,
    /// Its tools.
    pub tools: Vec<IndexedTool>,
}

/// What the tools in a vector say.
pub open spec fn tool_views(tools: Seq<IndexedTool>) -> Seq<ToolView> {
    tools.map_values(|t: IndexedTool| t@)
}

impl View for ToolGroup {
    type V = (Seq<char>, Seq<ToolView>);

    open spec fn view(&self) -> (Seq<char>, Seq<ToolView>) {
        (self.namespace@, tool_views(self.tools@))
    }
}

/// What the groups in a vector say.
pub open spec fn group_views(groups: Seq<ToolGroup>) -> Seq<(Seq<char>, Seq<ToolView>)> {
    groups.map_values(|g: ToolGroup| g@)
}

/// The group of a namespace stands at a position.
pub open spec fn group_at(
    groups: Seq<(Seq<char>, Seq<ToolView>)>,
    namespace: Seq<char>,
    i: int,
) -> bool {
    0 <= i < groups.len() && groups[i].0 == namespace
}

/// The groups with one more tool: it joins the group of its namespace, or
/// begins one.
pub open spec fn with_tool(
    groups: Seq<(Seq<char>, Seq<ToolView>)>,
    namespace: Seq<char>,
    tool: ToolView,
) -> Seq<(Seq<char>, Seq<ToolView>)> {
    if exists|i: int| group_at(groups, namespace, i) {
        let i = choose|i: int| group_at(groups, namespace, i);
        groups.update(i, (namespace, groups[i].1.push(tool)))
    } else {
        groups.push((namespace, seq![tool]))
    }
}

/// The tools by namespace, in the order in which the namespaces appear.
pub open spec fn grouped(tools: Seq<ToolDefinition>, separator: Seq<char>) -> Seq<
    (Seq<char>, Seq<ToolView>),
>
    decreases tools.len(),
{
    if tools.len() == 0 {
        Seq::empty()
    } else {
        with_tool(
            grouped(tools.drop_last(), separator),
            namespace_of(tools.last().name@, separator),
            indexed(tools.last(), separator),
        )
    }
}

/// No two groups are of one namespace.
pub open spec fn distinct_groups(groups: Seq<(Seq<char>, Seq<ToolView>)>) -> bool {
    forall|i: int, j: int|
        0 <= i < j < groups.len() ==> (#[trigger] groups[i]).0 != (#[trigger] groups[j]).0
}

/// The tools of a registry after groups were registered one after the other.
pub open spec fn all_registered(
    before: Map<Seq<char>, (Seq<char>, ToolView)>,
    groups: Seq<(Seq<char>, Seq<ToolView>)>,
) -> Map<Seq<char>, (Seq<char>, ToolView)>
    decreases groups.len(),
{
    if groups.len() == 0 {
        before
    } else {
        registered(
            all_registered(before, groups.drop_last()),
            groups.last().0,
            groups.last().1,
        )
    }
}

proof fn lemma_distinct_groups(tools: Seq<ToolDefinition>, separator: Seq<char>)
    ensures
        distinct_groups(grouped(tools, separator)),
    decreases tools.len(),
{
    if tools.len() > 0 {
        lemma_distinct_groups(tools.drop_last(), separator);
        let before = grouped(tools.drop_last(), separator);
        let namespace = namespace_of(tools.last().name@, separator);
        if exists|i: int| group_at(before, namespace, i) {
        } else {
            assert forall|i: int| 0 <= i < before.len() implies (#[trigger] before[i]).0
                != namespace by {
                assert(!group_at(before, namespace, i));
            }
        }
    }
}

/// Adds a tool to the groups.
fn join(groups: &mut Vec<ToolGroup>, namespace: &str, tool: IndexedTool)
    requires
        distinct_groups(group_views(old(groups)@)),
    ensures
        group_views(final(groups)@) == with_tool(group_views(old(groups)@), namespace@, tool@),
{
    let ghost before = group_views(groups@);
    let mut i: usize = 0;
    while i < groups.len()
        invariant
            i <= groups@.len(),
            groups@ == old(groups)@,
            before == group_views(groups@),
            distinct_groups(before),
            forall|j: int| 0 <= j < i ==> (#[trigger] before[j]).0 != namespace@,
        decreases groups@.len() - i,
    {
        if same_text(groups[i].namespace.as_str(), namespace) {
            proof {
                assert(before[i as int].0 == namespace@);
                assert(group_at(before, namespace@, i as int));
                let k = choose|k: int| group_at(before, namespace@, k);
                assert(group_at(before, namespace@, k));
                if k < i {
                    assert(before[k].0 != namespace@);
                } else if i < k {
                    assert(before[i as int].0 != before[k].0);
                }
            }
            let ghost said = tool@;
            let ghost held = groups@[i as int].tools@;
            let group = &mut groups[i];
            group.tools.push(tool);
            proof {
                assert(tool_views(groups@[i as int].tools@) =~= tool_views(held).push(said));
                assert(group_views(groups@) =~= before.update(
                    i as int,
                    (namespace@, before[i as int].1.push(said)),
                ));
            }
            return ;
        }
        i = i + 1;
    }
    proof {
        assert forall|k: int| !group_at(before, namespace@, k) by {
            if 0 <= k < before.len() {
                assert(before[k].0 != namespace@);
            }
        }
    }
    let ghost said = tool@;
    let mut tools: Vec<IndexedTool> = Vec::new();
    tools.push(tool);
    assert(tool_views(tools@) =~= seq![said]);
    groups.push(ToolGroup { namespace: namespace.to_owned(), tools });
    assert(group_views(groups@) =~= before.push((namespace@, seq![said])));
}

/// Groups tools by backend namespace (derived from the separator).
pub fn group_tools(tools: &[ToolDefinition], separator: &str) -> (groups: Vec<ToolGroup>)
    ensures
        group_views(groups@) == grouped(tools@, separator@),
{
    let mut groups: Vec<ToolGroup> = Vec::new();
    let mut i: usize = 0;
    assert(group_views(groups@) =~= grouped(tools@.take(0), separator@));
    while i < tools.len()
        invariant
            i <= tools@.len(),
            group_views(groups@) == grouped(tools@.take(i as int), separator@),
        decreases tools@.len() - i,
    {
        proof {
            assert(tools@.take(i + 1).drop_last() =~= tools@.take(i as int));
            assert(tools@.take(i + 1).last() == tools@[i as int]);
            lemma_distinct_groups(tools@.take(i as int), separator@);
        }
        let tool = tool_definition_to_spec(&tools[i], separator);
        match split_once(tools[i].name.as_str(), separator) {
            Some((namespace, _)) => join(&mut groups, namespace, tool),
            None => join(&mut groups, "default", tool),
        }
        i = i + 1;
    }
    assert(tools@.take(tools@.len() as int) =~= tools@);
    groups
}

/// The tools in the form of the registry.
fn registry_tools_of(tools: Vec<IndexedTool>) -> (result: Vec<jpx_engine::ToolSpec>)
    ensures
        registry_forms(result@) == tool_views(tools@),
{
    let ghost all = tools@;
    let mut result: Vec<jpx_engine::ToolSpec> = Vec::new();
    for tool in it: tools
        invariant
            it.seq() == all,
            result@.len() == it.index(),
            forall|j: int|
                0 <= j < it.index() ==> registry_form(#[trigger] result@[j]) == all[j]@,
    {
        let ghost whole = tool;
        let IndexedTool { name, category, tags, summary, description, params } = tool;
        let ghost all_params = params@;
        let mut converted: Vec<jpx_engine::ParamSpec> = Vec::new();
        for param in params_it: params
            invariant
                params_it.seq() == all_params,
                converted@.len() == params_it.index(),
                forall|j: int|
                    0 <= j < params_it.index() ==> registry_param(#[trigger] converted@[j])
                        == all_params[j]@,
        {
            converted.push(to_registry_param(param));
        }
        assert(registry_params(converted@) =~= param_views(all_params));
        let bare = IndexedTool { name, category, tags, summary, description, params: Vec::new() };
        result.push(to_registry_form(bare, converted));
    }
    assert(registry_forms(result@) =~= tool_views(all));
    result
}

/// Index MCP tool definitions into the discovery registry.
///
/// Groups tools by backend namespace (derived from the separator) and registers
/// each group as a discovery "server" with its tools. The descriptions are to
/// be such as can be indexed.
pub fn index_tools(
    registry: &mut jpx_engine::DiscoveryRegistry,
    tools: &[ToolDefinition],
    separator: &str,
)
    requires
        have_indexable_texts(tools@),
    ensures
        registry_tools(*final(registry)) == all_registered(
            registry_tools(*old(registry)),
            grouped(tools@, separator@),
        ),
{
    let groups = group_tools(tools, separator);
    let ghost all = groups@;
    let ghost before = registry_tools(*registry);
    assert(group_views(all.take(0)) =~= Seq::empty());
    for group in it: groups
        invariant
            it.seq() == all,
            group_views(all) == grouped(tools@, separator@),
            have_indexable_texts(tools@),
            registry_tools(*registry) == all_registered(
                before,
                group_views(all.take(it.index() as int)),
            ),
    {
        proof {
            let i = it.index() as int;
            assert(group_views(all.take(i + 1)).drop_last() =~= group_views(all.take(i)));
            assert(group_views(all.take(i + 1)).last() == all[i]@);
        }
        let ghost views = tool_views(group.tools@);
        proof {
            let g = it.index() as int;
            let views_of_all = grouped(tools@, separator@);
            assert(views_of_all[g] == all[g]@);
            assert forall|p: int| 0 <= p < views.len() implies {
                &&& indexable_if_any((#[trigger] views[p]).summary)
                &&& indexable_if_any(views[p].description)
            } by {
                lemma_every_standing_tool_comes(tools@, separator@, g, p);
                let k = choose|k: int|
                    comes_from(tools@, separator@, views_of_all[g].0, views_of_all[g].1[p], k);
                assert(indexable_if_any(optional(tools@[k].description)));
            }
        }
        let ToolGroup { namespace, tools: group_tools } = group;
        let forms = registry_tools_of(group_tools);
        proof {
            assert forall|p: int| 0 <= p < forms@.len() implies {
                &&& indexable_if_any(registry_form(#[trigger] forms@[p]).summary)
                &&& indexable_if_any(registry_form(forms@[p]).description)
            } by {
                assert(registry_forms(forms@)[p] == views[p]);
            }
        }
        register(registry, namespace.as_str(), forms);
    }
    assert(all.take(all.len() as int) =~= all);
}

/// Build a discovery index from a tool list, whose descriptions are to be such
/// as can be indexed.
pub fn build_index(tools: &[ToolDefinition], separator: &str) -> (registry:
    jpx_engine::DiscoveryRegistry)
    requires
        have_indexable_texts(tools@),
    ensures
        registry_tools(registry) == all_registered(
            no_tools(),
            grouped(tools@, separator@),
        ),
{
    let mut registry = new_registry();
    index_tools(&mut registry, tools, separator);
    registry
}

/// The identifier under which a tool is indexed.
pub open spec fn id_of(tool: ToolDefinition, separator: Seq<char>) -> Seq<char> {
    tool_id(namespace_of(tool.name@, separator), local_of(tool.name@, separator))
}

/// A tool stands in a group.
spec fn stands_at(
    groups: Seq<(Seq<char>, Seq<ToolView>)>,
    namespace: Seq<char>,
    tool: ToolView,
    g: int,
    p: int,
) -> bool {
    &&& 0 <= g < groups.len()
    &&& groups[g].0 == namespace
    &&& 0 <= p < groups[g].1.len()
    &&& groups[g].1[p] == tool
}

/// A tool in a group is one of the tools.
spec fn comes_from(
    tools: Seq<ToolDefinition>,
    separator: Seq<char>,
    namespace: Seq<char>,
    tool: ToolView,
    k: int,
) -> bool {
    &&& 0 <= k < tools.len()
    &&& namespace_of(tools[k].name@, separator) == namespace
    &&& indexed(tools[k], separator) == tool
}

proof fn lemma_every_tool_stands(tools: Seq<ToolDefinition>, separator: Seq<char>, k: int)
    requires
        0 <= k < tools.len(),
    ensures
        exists|g: int, p: int|
            stands_at(
                grouped(tools, separator),
                namespace_of(tools[k].name@, separator),
                indexed(tools[k], separator),
                g,
                p,
            ),
    decreases tools.len(),
{
    let rest = tools.drop_last();
    let before = grouped(rest, separator);
    let after = grouped(tools, separator);
    let last = tools.last();
    let last_namespace = namespace_of(last.name@, separator);
    let namespace = namespace_of(tools[k].name@, separator);
    let tool = indexed(tools[k], separator);
    if k == tools.len() - 1 {
        if exists|i: int| group_at(before, last_namespace, i) {
            let i = choose|i: int| group_at(before, last_namespace, i);
            assert(stands_at(after, namespace, tool, i, before[i].1.len() as int));
        } else {
            assert(stands_at(after, namespace, tool, before.len() as int, 0));
        }
    } else {
        lemma_every_tool_stands(rest, separator, k);
        assert(rest[k] == tools[k]);
        let (g, p) = choose|g: int, p: int| stands_at(before, namespace, tool, g, p);
        assert(stands_at(after, namespace, tool, g, p));
    }
}

proof fn lemma_every_standing_tool_comes(
    tools: Seq<ToolDefinition>,
    separator: Seq<char>,
    g: int,
    p: int,
)
    requires
        0 <= g < grouped(tools, separator).len(),
        0 <= p < grouped(tools, separator)[g].1.len(),
    ensures
        exists|k: int|
            comes_from(
                tools,
                separator,
                grouped(tools, separator)[g].0,
                grouped(tools, separator)[g].1[p],
                k,
            ),
    decreases tools.len(),
{
    let rest = tools.drop_last();
    let before = grouped(rest, separator);
    let after = grouped(tools, separator);
    let last = tools.last();
    let last_namespace = namespace_of(last.name@, separator);
    let n = tools.len() - 1;
    if exists|i: int| group_at(before, last_namespace, i) {
        let i = choose|i: int| group_at(before, last_namespace, i);
        if g == i && p == before[i].1.len() {
            assert(comes_from(tools, separator, after[g].0, after[g].1[p], n));
        } else {
            lemma_every_standing_tool_comes(rest, separator, g, p);
            let k = choose|k: int|
                comes_from(rest, separator, before[g].0, before[g].1[p], k);
            assert(comes_from(tools, separator, after[g].0, after[g].1[p], k));
        }
    } else if g == before.len() {
        assert(comes_from(tools, separator, after[g].0, after[g].1[p], n));
    } else {
        lemma_every_standing_tool_comes(rest, separator, g, p);
        let k = choose|k: int| comes_from(rest, separator, before[g].0, before[g].1[p], k);
        assert(comes_from(tools, separator, after[g].0, after[g].1[p], k));
    }
}

proof fn lemma_registered_holds(
    before: Map<Seq<char>, (Seq<char>, ToolView)>,
    server: Seq<char>,
    tools: Seq<ToolView>,
    p: int,
)
    requires
        0 <= p < tools.len(),
        forall|q: int|
            0 <= q < tools.len() && tool_id(server, (#[trigger] tools[q]).name) == tool_id(
                server,
                tools[p].name,
            ) ==> tools[q] == tools[p],
    ensures
        registered(before, server, tools).contains_key(tool_id(server, tools[p].name)),
        registered(before, server, tools)[tool_id(server, tools[p].name)] == (server, tools[p]),
    decreases tools.len(),
{
    let last = tools.len() - 1;
    assert(tools.last() == tools[last]);
    if tool_id(server, tools[last].name) != tool_id(server, tools[p].name) {
        let rest = tools.drop_last();
        assert forall|q: int|
            0 <= q < rest.len() && tool_id(server, (#[trigger] rest[q]).name) == tool_id(
                server,
                rest[p].name,
            ) implies rest[q] == rest[p] by {
            assert(rest[q] == tools[q] && rest[p] == tools[p]);
        }
        lemma_registered_holds(before, server, rest, p);
    }
}

proof fn lemma_registered_keeps(
    before: Map<Seq<char>, (Seq<char>, ToolView)>,
    server: Seq<char>,
    tools: Seq<ToolView>,
    id: Seq<char>,
)
    requires
        before.contains_key(id),
        before[id].0 != server,
        forall|q: int|
            0 <= q < tools.len() ==> tool_id(server, (#[trigger] tools[q]).name) != id,
    ensures
        registered(before, server, tools).contains_key(id),
        registered(before, server, tools)[id] == before[id],
    decreases tools.len(),
{
    if tools.len() > 0 {
        let rest = tools.drop_last();
        assert forall|q: int| 0 <= q < rest.len() implies tool_id(
            server,
            (#[trigger] rest[q]).name,
        ) != id by {
            assert(rest[q] == tools[q]);
        }
        lemma_registered_keeps(before, server, rest, id);
        assert(tools.last() == tools[tools.len() - 1]);
    }
}

proof fn lemma_all_registered_holds(
    before: Map<Seq<char>, (Seq<char>, ToolView)>,
    groups: Seq<(Seq<char>, Seq<ToolView>)>,
    g: int,
    p: int,
    id: Seq<char>,
)
    requires
        distinct_groups(groups),
        0 <= g < groups.len(),
        0 <= p < groups[g].1.len(),
        id == tool_id(groups[g].0, groups[g].1[p].name),
        forall|h: int, q: int|
            0 <= h < groups.len() && 0 <= q < groups[h].1.len() && tool_id(
                groups[h].0,
                (#[trigger] groups[h].1[q]).name,
            ) == id ==> h == g && groups[h].1[q] == groups[g].1[p],
    ensures
        all_registered(before, groups).contains_key(id),
        all_registered(before, groups)[id] == (groups[g].0, groups[g].1[p]),
    decreases groups.len(),
{
    let rest = groups.drop_last();
    let last = groups.len() - 1;
    let earlier = all_registered(before, rest);
    assert(groups.last() == groups[last]);
    if g == last {
        assert forall|q: int|
            0 <= q < groups[g].1.len() && tool_id(groups[g].0, (#[trigger] groups[g].1[q]).name)
                == tool_id(groups[g].0, groups[g].1[p].name) implies groups[g].1[q]
            == groups[g].1[p] by {}
        lemma_registered_holds(earlier, groups[g].0, groups[g].1, p);
    } else {
        assert(rest[g] == groups[g]);
        assert(distinct_groups(rest)) by {
            assert forall|i: int, j: int| 0 <= i < j < rest.len() implies (#[trigger] rest[i]).0
                != (#[trigger] rest[j]).0 by {
                assert(rest[i] == groups[i] && rest[j] == groups[j]);
            }
        }
        assert forall|h: int, q: int|
            0 <= h < rest.len() && 0 <= q < rest[h].1.len() && tool_id(
                rest[h].0,
                (#[trigger] rest[h].1[q]).name,
            ) == id implies h == g && rest[h].1[q] == rest[g].1[p] by {
            assert(rest[h] == groups[h]);
            assert(groups[h].1[q] == rest[h].1[q]);
        }
        lemma_all_registered_holds(before, rest, g, p, id);
        assert(groups[g].0 != groups[last].0);
        assert forall|q: int| 0 <= q < groups[last].1.len() implies tool_id(
            groups[last].0,
            (#[trigger] groups[last].1[q]).name,
        ) != id by {}
        lemma_registered_keeps(earlier, groups[last].0, groups[last].1, id);
    }
}

/// Every tool of a list is found in the index under its identifier, as it was
/// indexed, where no two tools have one identifier.
pub proof fn indexed_tools_are_found(
    before: Map<Seq<char>, (Seq<char>, ToolView)>,
    tools: Seq<ToolDefinition>,
    separator: Seq<char>,
    k: int,
)
    requires
        forall|i: int, j: int|
            0 <= i < j < tools.len() ==> id_of(#[trigger] tools[i], separator) != id_of(
                #[trigger] tools[j],
                separator,
            ),
        0 <= k < tools.len(),
    ensures
        ({
            let after = all_registered(before, grouped(tools, separator));
            let id = id_of(tools[k], separator);
            &&& after.contains_key(id)
            &&& after[id] == (
                namespace_of(tools[k].name@, separator),
                indexed(tools[k], separator),
            )
        }),
{
    let groups = grouped(tools, separator);
    let namespace = namespace_of(tools[k].name@, separator);
    let tool = indexed(tools[k], separator);
    let id = id_of(tools[k], separator);
    lemma_distinct_groups(tools, separator);
    lemma_every_tool_stands(tools, separator, k);
    let (g, p) = choose|g: int, p: int| stands_at(groups, namespace, tool, g, p);
    assert forall|h: int, q: int|
        0 <= h < groups.len() && 0 <= q < groups[h].1.len() && tool_id(
            groups[h].0,
            (#[trigger] groups[h].1[q]).name,
        ) == id implies h == g && groups[h].1[q] == groups[g].1[p] by {
        lemma_every_standing_tool_comes(tools, separator, h, q);
        let j = choose|j: int| comes_from(tools, separator, groups[h].0, groups[h].1[q], j);
        assert(id_of(tools[j], separator) == id);
        assert(j == k);
        if h < g {
            assert(groups[h].0 != groups[g].0);
        } else if g < h {
            assert(groups[g].0 != groups[h].0);
        }
    }
    lemma_all_registered_holds(before, groups, g, p, id);
}

/// The default number of search results.
pub fn default_top_k() -> (value: usize)
    ensures
        value == 10,
{
    10
}

/// The default number of similar tools.
pub fn default_similar_k() -> (value: usize)
    ensures
        value == 5,
{
    5
}

/// A tool that a search found.
#[derive(Debug)]
pub struct SearchResultEntry {
    /// The identifier of the tool.
    pub id: String,
    /// The server for which it is registered.
    pub server: String,
    /// Its name without the namespace.
    pub name: String,
    /// What it does.
    pub description: Option<String>,
    /// How well it matches (higher is better).
    pub score: Float,
    /// Its tags.
    pub tags: Vec<String>,
    /// Its namespace.
    pub category: Option<String>,
}

/// A search result is one of the tools.
pub open spec fn is_found(
    tools: Map<Seq<char>, (Seq<char>, ToolView)>,
    entry: SearchResultEntry,
) -> bool {
    &&& tools.contains_key(entry.id@)
    &&& tools[entry.id@].0 == entry.server@
    &&& tools[entry.id@].1.name == entry.name@
    &&& tools[entry.id@].1.description == optional(entry.description)
    &&& tools[entry.id@].1.tags == texts(entry.tags@)
    &&& tools[entry.id@].1.category == optional(entry.category)
}

/// What holds of the results of any search: at most as many as asked for, each
/// one of the tools, none twice, and the better ones first. Scores are above
/// zero, so that they are ordered as their bit patterns.
pub open spec fn are_results(
    tools: Map<Seq<char>, (Seq<char>, ToolView)>,
    top_k: usize,
    entries: Seq<SearchResultEntry>,
) -> bool {
    &&& entries.len() <= top_k
    &&& forall|i: int| 0 <= i < entries.len() ==> is_found(tools, #[trigger] entries[i])
    &&& forall|i: int|
        0 <= i < entries.len() ==> 0 < (#[trigger] entries[i]).score.bits < 0x8000_0000_0000_0000
    &&& forall|i: int, j: int|
        0 <= i < j < entries.len() ==> (#[trigger] entries[i]).id@ != (#[trigger] entries[j]).id@
            && entries[i].score.bits >= entries[j].score.bits
}

/// The identifiers of the tools in a registry that match a text: each holds one
/// of the terms that `jpx_engine` makes of the text.
pub uninterp spec fn query_matches(
    registry: jpx_engine::DiscoveryRegistry,
    text: Seq<char>,
) -> Set<Seq<char>>;

/// The identifiers of the tools in a registry, other than a given one, that
/// hold one of the terms that `jpx_engine` makes of that one.
pub uninterp spec fn similar_matches(
    registry: jpx_engine::DiscoveryRegistry,
    id: Seq<char>,
) -> Set<Seq<char>>;

/// The results are taken from the tools that match: all of them, or as many as
/// asked for.
pub open spec fn are_taken_from(
    matches: Set<Seq<char>>,
    top_k: usize,
    entries: Seq<SearchResultEntry>,
) -> bool {
    &&& matches.finite()
    &&& entries.len() == (if matches.len() <= top_k {
        matches.len()
    } else {
        top_k as nat
    })
    &&& forall|i: int| 0 <= i < entries.len() ==> matches.contains((#[trigger] entries[i]).id@)
}

/// `jpx_engine::DiscoveryRegistry::query`: the registered tools that match a
/// text best. Which tools match is named, not stated. How they score, and the
/// order of equal scores, are not stated.
#[verifier::external_body]
fn query(registry: &jpx_engine::DiscoveryRegistry, text: &str, top_k: usize) -> (entries: Vec<
    SearchResultEntry,
>)
    ensures
        are_results(registry_tools(*registry), top_k, entries@),
        are_taken_from(query_matches(*registry, text@), top_k, entries@),
{
    registry.query(text, top_k).into_iter().map(|r| SearchResultEntry {
        id: r.id,
        server: r.server,
        name: r.tool.name,
        description: r.tool.description,
        score: Float { bits: r.score.to_bits() },
        tags: r.tool.tags,
        category: r.tool.category,
    }).collect()
}

/// `jpx_engine::DiscoveryRegistry::similar`: the registered tools, other than
/// the given one, that match its terms best. Which tools match is named, not
/// stated. How they score, and the order of equal scores, are not stated.
#[verifier::external_body]
fn similar(registry: &jpx_engine::DiscoveryRegistry, id: &str, top_k: usize) -> (entries: Vec<
    SearchResultEntry,
>)
    ensures
        are_results(registry_tools(*registry), top_k, entries@),
        are_taken_from(similar_matches(*registry, id@), top_k, entries@),
        forall|i: int| 0 <= i < entries@.len() ==> (#[trigger] entries@[i]).id@ != id@,
{
    registry.similar(id, top_k).into_iter().map(|r| SearchResultEntry {
        id: r.id,
        server: r.server,
        name: r.tool.name,
        description: r.tool.description,
        score: Float { bits: r.score.to_bits() },
        tags: r.tool.tags,
        category: r.tool.category,
    }).collect()
}

/// Search for tools across all backends using BM25 full-text search.
pub fn search_tools(
    registry: &jpx_engine::DiscoveryRegistry,
    text: &str,
    top_k: usize,
) -> (entries: Vec<SearchResultEntry>)
    ensures
        are_results(registry_tools(*registry), top_k, entries@),
        are_taken_from(query_matches(*registry, text@), top_k, entries@),
{
    query(registry, text, top_k)
}

/// Find tools similar to a given tool.
pub fn similar_tools(
    registry: &jpx_engine::DiscoveryRegistry,
    id: &str,
    top_k: usize,
) -> (entries: Vec<SearchResultEntry>)
    ensures
        are_results(registry_tools(*registry), top_k, entries@),
        are_taken_from(similar_matches(*registry, id@), top_k, entries@),
        forall|i: int| 0 <= i < entries@.len() ==> (#[trigger] entries@[i]).id@ != id@,
{
    similar(registry, id, top_k)
}

/// A search that may give as many results as tools match finds every one that
/// does.
pub proof fn every_match_is_found(
    tools: Map<Seq<char>, (Seq<char>, ToolView)>,
    matches: Set<Seq<char>>,
    top_k: usize,
    entries: Seq<SearchResultEntry>,
    id: Seq<char>,
)
    requires
        are_results(tools, top_k, entries),
        are_taken_from(matches, top_k, entries),
        matches.len() <= top_k,
        matches.contains(id),
    ensures
        exists|i: int| 0 <= i < entries.len() && (#[trigger] entries[i]).id@ == id,
{
    let ids = entries.map_values(|e: SearchResultEntry| e.id@);
    assert(ids.no_duplicates());
    ids.unique_seq_to_set();
    assert forall|x: Seq<char>| ids.to_set().contains(x) implies matches.contains(x) by {
        let i = ids.index_of(x);
        assert(matches.contains(entries[i].id@));
    }
    vstd::set_lib::lemma_subset_equality(ids.to_set(), matches);
    let i = ids.index_of(id);
    assert(entries[i].id@ == id);
}

/// A category (backend namespace) and its tools.
#[derive(Debug)]
pub struct CategorySummary {
    /// Category name.
    pub name: String,
    /// Total number of tools in this category.
    pub tool_count: usize,
    /// Names of servers that have tools in this category.
    pub servers: Vec<String>,
    /// Subcategories within this category.
    pub subcategories: Vec<String>,
}

/// All categories, the ones with the most tools first.
#[derive(Debug)]
pub struct CategoriesResult {
    /// The categories.
    pub categories: Vec<CategorySummary>,
    /// How many there are.
    pub total_categories: usize,
}

/// The identifiers of the tools of a category.
pub open spec fn category_ids(
    tools: Map<Seq<char>, (Seq<char>, ToolView)>,
    name: Seq<char>,
) -> Set<Seq<char>> {
    tools.dom().filter(|id: Seq<char>| tools[id].1.category == Some(name))
}

/// A summary counts the tools of its category, and names their servers and
/// subcategories, each once.
pub open spec fn summarizes(
    tools: Map<Seq<char>, (Seq<char>, ToolView)>,
    summary: CategorySummary,
) -> bool {
    &&& summary.tool_count > 0
    &&& summary.tool_count == category_ids(tools, summary.name@).len()
    &&& texts(summary.servers@).no_duplicates()
    &&& forall|server: Seq<char>| #[trigger]
        texts(summary.servers@).contains(server) <==> exists|id: Seq<char>|
            category_ids(tools, summary.name@).contains(id) && (#[trigger] tools[id]).0 == server
    &&& texts(summary.subcategories@).no_duplicates()
    &&& forall|part: Seq<char>| #[trigger]
        texts(summary.subcategories@).contains(part) <==> exists|id: Seq<char>|
            category_ids(tools, summary.name@).contains(id) && (
            #[trigger] tools[id]).1.subcategory == Some(part)
}

/// There is one summary for each category that a tool has, and no other.
pub open spec fn are_summaries(
    tools: Map<Seq<char>, (Seq<char>, ToolView)>,
    summaries: Seq<CategorySummary>,
) -> bool {
    &&& forall|i: int| 0 <= i < summaries.len() ==> summarizes(tools, #[trigger] summaries[i])
    &&& forall|i: int, j: int|
        0 <= i < j < summaries.len() ==> (#[trigger] summaries[i]).name@ != (
        #[trigger] summaries[j]).name@
    &&& forall|id: Seq<char>, name: Seq<char>| #[trigger]
        category_ids(tools, name).contains(id) ==> exists|i: int|
            0 <= i < summaries.len() && (#[trigger] summaries[i]).name@ == name
}

/// `jpx_engine::DiscoveryRegistry::list_categories`: one summary for each
/// category of a registered tool, in an order that is not fixed.
#[verifier::external_body]
fn list_categories(registry: &jpx_engine::DiscoveryRegistry) -> (summaries: Vec<CategorySummary>)
    ensures
        are_summaries(registry_tools(*registry), summaries@),
{
    registry.list_categories().into_values().map(|c| CategorySummary {
        name: c.name,
        tool_count: c.tool_count,
        servers: c.servers,
        subcategories: c.subcategories,
    }).collect()
}

/// A category put into categories that stand in descending order: behind all
/// that have at least as many tools.
pub open spec fn put_in_order(sorted: Seq<CategorySummary>, c: CategorySummary) -> Seq<
    CategorySummary,
>
    decreases sorted.len(),
{
    if sorted.len() == 0 || sorted.last().tool_count >= c.tool_count {
        sorted.push(c)
    } else {
        put_in_order(sorted.drop_last(), c).push(sorted.last())
    }
}

/// Categories in descending order of their tools; those with as many stay in
/// the order in which they came.
pub open spec fn in_order(categories: Seq<CategorySummary>) -> Seq<CategorySummary>
    decreases categories.len(),
{
    if categories.len() == 0 {
        Seq::empty()
    } else {
        put_in_order(in_order(categories.drop_last()), categories.last())
    }
}

/// Categories stand in descending order of their tools.
pub open spec fn descends(categories: Seq<CategorySummary>) -> bool {
    forall|i: int, j: int|
        0 <= i <= j < categories.len() ==> (#[trigger] categories[i]).tool_count >= (
        #[trigger] categories[j]).tool_count
}

proof fn lemma_put_in_order(sorted: Seq<CategorySummary>, c: CategorySummary)
    requires
        descends(sorted),
    ensures
        descends(put_in_order(sorted, c)),
        put_in_order(sorted, c).to_multiset() == sorted.to_multiset().insert(c),
        put_in_order(sorted, c).len() == sorted.len() + 1,
        forall|i: int|
            0 <= i < put_in_order(sorted, c).len() ==> (#[trigger] put_in_order(
                sorted,
                c,
            )[i]).tool_count >= c.tool_count || sorted.len() > 0 && put_in_order(sorted, c)[i].tool_count >= sorted.last().tool_count,
    decreases sorted.len(),
{
    broadcast use vstd::seq_lib::group_to_multiset_ensures;

    if sorted.len() == 0 || sorted.last().tool_count >= c.tool_count {
    } else {
        let rest = sorted.drop_last();
        assert(descends(rest)) by {
            assert forall|i: int, j: int| 0 <= i <= j < rest.len() implies (
            #[trigger] rest[i]).tool_count >= (#[trigger] rest[j]).tool_count by {
                assert(rest[i] == sorted[i] && rest[j] == sorted[j]);
            }
        }
        lemma_put_in_order(rest, c);
        let put = put_in_order(rest, c);
        let result = put.push(sorted.last());
        assert(sorted =~= rest.push(sorted.last()));
        assert(result.to_multiset() =~= sorted.to_multiset().insert(c));
        assert forall|i: int| 0 <= i < put.len() implies (#[trigger] put[i]).tool_count
            >= sorted.last().tool_count by {
            if rest.len() > 0 {
                assert(sorted[rest.len() - 1].tool_count >= sorted[sorted.len() - 1].tool_count);
            }
        }
    }
}

/// Putting categories in order keeps them all and makes them descend.
pub proof fn order_keeps_categories(categories: Seq<CategorySummary>)
    ensures
        descends(in_order(categories)),
        in_order(categories).to_multiset() == categories.to_multiset(),
        in_order(categories).len() == categories.len(),
    decreases categories.len(),
{
    broadcast use vstd::seq_lib::group_to_multiset_ensures;

    if categories.len() > 0 {
        order_keeps_categories(categories.drop_last());
        lemma_put_in_order(in_order(categories.drop_last()), categories.last());
        assert(categories =~= categories.drop_last().push(categories.last()));
    } else {
        assert(in_order(categories) =~= categories);
    }
}

fn put(sorted: &mut Vec<CategorySummary>, c: CategorySummary)
    ensures
        final(sorted)@ == put_in_order(old(sorted)@, c),
    decreases old(sorted)@.len(),
{
    match sorted.pop() {
        None => {
            sorted.push(c);
            assert(sorted@ =~= put_in_order(old(sorted)@, c));
        },
        Some(last) => {
            if last.tool_count >= c.tool_count {
                sorted.push(last);
                assert(sorted@ =~= old(sorted)@);
                sorted.push(c);
            } else {
                assert(sorted@ =~= old(sorted)@.drop_last());
                put(sorted, c);
                sorted.push(last);
            }
        },
    }
}

/// Puts categories in descending order of their tools.
pub fn sort_categories(categories: Vec<CategorySummary>) -> (sorted: Vec<CategorySummary>)
    ensures
        sorted@ == in_order(categories@),
{
    let ghost all = categories@;
    let mut sorted: Vec<CategorySummary> = Vec::new();
    assert(in_order(all.take(0)) =~= Seq::empty());
    for c in it: categories
        invariant
            it.seq() == all,
            sorted@ == in_order(all.take(it.index() as int)),
    {
        proof {
            let i = it.index() as int;
            assert(all.take(i + 1).drop_last() =~= all.take(i));
            assert(all.take(i + 1).last() == all[i]);
        }
        put(&mut sorted, c);
    }
    assert(all.take(all.len() as int) =~= all);
    sorted
}

/// List all tool categories (backend namespaces) with tool counts.
pub fn tool_categories(registry: &jpx_engine::DiscoveryRegistry) -> (result: CategoriesResult)
    ensures
        result.total_categories == result.categories@.len(),
        descends(result.categories@),
        exists|summaries: Seq<CategorySummary>|
            are_summaries(registry_tools(*registry), summaries) && result.categories@
                == #[trigger] in_order(summaries),
{
    let categories = list_categories(registry);
    let ghost listed = categories@;
    let sorted = sort_categories(categories);
    proof {
        order_keeps_categories(listed);
        assert(sorted@ == in_order(listed));
    }
    let total_categories: usize = sorted.len();
    CategoriesResult { categories: sorted, total_categories }
}

/// Where a name is a namespace, the separator and a rest, with the shortest
/// such namespace, the tool is in that namespace under that rest.
pub proof fn names_are_parted_at_the_first_separator(
    name: Seq<char>,
    separator: Seq<char>,
    namespace: Seq<char>,
    local: Seq<char>,
)
    requires
        name == namespace + separator + local,
        forall|a: Seq<char>, b: Seq<char>|
            name == #[trigger] (a + separator + b) ==> namespace.len() <= a.len(),
    ensures
        category_of(name, separator) == Some(namespace),
        namespace_of(name, separator) == namespace,
        local_of(name, separator) == local,
{
    texts_are_split_at_the_first_delimiter(name, separator, namespace, local);
    let (x, y) = split_first(name, separator)->0;
    texts_are_split_at_the_first_delimiter(name, separator, x, y);
    assert(name == x + separator + y);
}

/// A tool whose name does not hold the separator has no category; it is
/// grouped as `default`, under its whole name.
pub proof fn names_without_separator_are_default(name: Seq<char>, separator: Seq<char>)
    requires
        forall|a: Seq<char>, b: Seq<char>| name != #[trigger] (a + separator + b),
    ensures
        category_of(name, separator) is None,
        namespace_of(name, separator) == "default"@,
        local_of(name, separator) == name,
{
    if split_first(name, separator) is Some {
        let (x, y) = split_first(name, separator)->0;
        texts_are_split_at_the_first_delimiter(name, separator, x, y);
        assert(name == x + separator + y);
    }
}

/// A tool has the tags for which it has the hints, in this order.
pub proof fn hints_give_tags(annotations: ToolAnnotations)
    ensures
        tags_of(Some(annotations)) == seq![
            ("destructive"@, annotations.destructive_hint),
            ("read-only"@, annotations.read_only_hint),
            ("idempotent"@, annotations.idempotent_hint),
            ("open-world"@, annotations.open_world_hint),
        ].filter(|tag: (Seq<char>, bool)| tag.1).map_values(|tag: (Seq<char>, bool)| tag.0),
        tags_of(None) == Seq::<Seq<char>>::empty(),
{
    let applies = |tag: (Seq<char>, bool)| tag.1;
    let none = Seq::<(Seq<char>, bool)>::empty();
    let one = none.push(("destructive"@, annotations.destructive_hint));
    let two = one.push(("read-only"@, annotations.read_only_hint));
    let three = two.push(("idempotent"@, annotations.idempotent_hint));
    let four = three.push(("open-world"@, annotations.open_world_hint));
    reveal(Seq::filter);
    assert(none.filter(applies) =~= none);
    none.lemma_filter_push(("destructive"@, annotations.destructive_hint), applies);
    one.lemma_filter_push(("read-only"@, annotations.read_only_hint), applies);
    two.lemma_filter_push(("idempotent"@, annotations.idempotent_hint), applies);
    three.lemma_filter_push(("open-world"@, annotations.open_world_hint), applies);
    assert(four =~= seq![
        ("destructive"@, annotations.destructive_hint),
        ("read-only"@, annotations.read_only_hint),
        ("idempotent"@, annotations.idempotent_hint),
        ("open-world"@, annotations.open_world_hint),
    ]);
    assert(tags_of(Some(annotations)) =~= four.filter(applies).map_values(
        |tag: (Seq<char>, bool)| tag.0,
    ));
}

/// A tool is indexed under its name without the namespace, with its namespace
/// as category, the tags of its hints, its description, which is its summary
/// too, and the parameters of its schema.
pub proof fn tools_are_indexed_as_defined(tool: ToolDefinition, separator: Seq<char>)
    ensures
        indexed(tool, separator).name == local_of(tool.name@, separator),
        indexed(tool, separator).category == category_of(tool.name@, separator),
        indexed(tool, separator).subcategory is None,
        indexed(tool, separator).tags == tags_of(tool.annotations),
        tool.description is None ==> indexed(tool, separator).description is None && indexed(
            tool,
            separator,
        ).summary is None,
        tool.description matches Some(text) ==> indexed(tool, separator).description == Some(text@)
            && indexed(tool, separator).summary == Some(text@),
        indexed(tool, separator).params == schema_params(tool.input_schema),
{
}

/// Each property of a schema is a parameter under its name, in the order of
/// the properties, with the type and the description that the property gives
/// as strings; it is required exactly where the schema lists its name as
/// required.
pub proof fn properties_are_parameters(
    schema: serde_json::Value,
    properties: serde_json::Value,
    members: Seq<(Seq<char>, serde_json::Value)>,
    i: int,
)
    requires
        json_field(schema, "properties"@) == Some(properties),
        json_members(properties) == Some(members),
    ensures
        schema_params(schema).len() == members.len(),
        0 <= i < members.len() ==> {
            let param = schema_params(schema)[i];
            let property = members[i].1;
            &&& param.name == members[i].0
            &&& json_field(property, "type"@) is None ==> param.param_type is None
            &&& json_field(property, "type"@) matches Some(t) ==> param.param_type == json_string(t)
            &&& json_field(property, "description"@) is None ==> param.description is None
            &&& json_field(property, "description"@) matches Some(d) ==> param.description
                == json_string(d)
            &&& param.required <==> {
                &&& json_field(schema, "required"@) is Some
                &&& json_items(json_field(schema, "required"@)->0) is Some
                &&& exists|j: int|
                    0 <= j < json_items(json_field(schema, "required"@)->0)->0.len()
                        && json_string(
                        #[trigger] json_items(json_field(schema, "required"@)->0)->0[j],
                    ) == Some(members[i].0)
            }
        },
{
}

/// A schema without properties has no parameters, nor has one whose properties
/// are no object.
pub proof fn without_properties_there_are_no_parameters(schema: serde_json::Value)
    ensures
        json_field(schema, "properties"@) is None ==> schema_params(schema).len() == 0,
        json_field(schema, "properties"@) matches Some(properties) ==> (json_members(
            properties,
        ) is None ==> schema_params(schema).len() == 0),
{
}

/// Parameters, tools and groups say what they hold, in their order.
pub proof fn indexed_tools_say_what_they_hold(
    param: IndexedParam,
    tool: IndexedTool,
    group: ToolGroup,
)
    ensures
        param@.name == param.name@,
        param@.required == param.required,
        param@.param_type == optional(param.param_type),
        param@.description == optional(param.description),
        tool@.name == tool.name@,
        tool@.category == optional(tool.category),
        tool@.subcategory is None,
        tool@.tags == texts(tool.tags@),
        tool@.summary == optional(tool.summary),
        tool@.description == optional(tool.description),
        tool@.params.len() == tool.params@.len(),
        forall|i: int| 0 <= i < tool.params@.len() ==> #[trigger] tool@.params[i] == tool.params@[i]@,
        group@.0 == group.namespace@,
        group@.1.len() == group.tools@.len(),
        forall|i: int| 0 <= i < group.tools@.len() ==> #[trigger] group@.1[i] == group.tools@[i]@,
{
}

/// Groups, and what is handed to the registry, stand in the order of what they
/// are made of.
pub proof fn indexed_views_keep_order(
    groups: Seq<ToolGroup>,
    tools: Seq<jpx_engine::ToolSpec>,
    params: Seq<jpx_engine::ParamSpec>,
)
    ensures
        group_views(groups).len() == groups.len(),
        forall|i: int| 0 <= i < groups.len() ==> #[trigger] group_views(groups)[i] == groups[i]@,
        registry_forms(tools).len() == tools.len(),
        forall|i: int|
            0 <= i < tools.len() ==> #[trigger] registry_forms(tools)[i] == registry_form(tools[i]),
        registry_params(params).len() == params.len(),
        forall|i: int|
            0 <= i < params.len() ==> #[trigger] registry_params(params)[i] == registry_param(
                params[i],
            ),
{
}

/// Groups are made in the order in which their namespaces first appear: one
/// tool more leaves the namespaces as they are where its own is among them,
/// and else puts its own behind them.
pub proof fn namespaces_come_in_order(
    tools: Seq<ToolDefinition>,
    tool: ToolDefinition,
    separator: Seq<char>,
)
    ensures
        ({
            let namespace = namespace_of(tool.name@, separator);
            let before = grouped(tools, separator);
            let after = grouped(tools.push(tool), separator);
            let known = exists|i: int| 0 <= i < before.len() && (#[trigger] before[i]).0 == namespace;
            &&& grouped(Seq::empty(), separator).len() == 0
            &&& after.len() == before.len() + (if known {
                0int
            } else {
                1
            })
            &&& forall|i: int| 0 <= i < before.len() ==> (#[trigger] after[i]).0 == before[i].0
            &&& !known ==> after.last().0 == namespace
        }),
{
    assert(tools.push(tool).drop_last() =~= tools);
    let namespace = namespace_of(tool.name@, separator);
    let before = grouped(tools, separator);
    if exists|i: int| 0 <= i < before.len() && (#[trigger] before[i]).0 == namespace {
        let i = choose|i: int| 0 <= i < before.len() && (#[trigger] before[i]).0 == namespace;
        assert(group_at(before, namespace, i));
    } else {
        assert forall|i: int| !group_at(before, namespace, i) by {
            if 0 <= i < before.len() {
                assert(before[i].0 != namespace);
            }
        }
    }
}

/// A group holds the tools of its namespace, as they are indexed, in the order
/// in which they were given, and no two groups are of one namespace.
pub proof fn groups_hold_the_tools_of_their_namespace(
    tools: Seq<ToolDefinition>,
    separator: Seq<char>,
    g: int,
    h: int,
)
    requires
        0 <= g < grouped(tools, separator).len(),
        0 <= h < grouped(tools, separator).len(),
    ensures
        grouped(tools, separator)[g].1 == tools.filter(
            |tool: ToolDefinition| namespace_of(tool.name@, separator) == grouped(
                tools,
                separator,
            )[g].0,
        ).map_values(|tool: ToolDefinition| indexed(tool, separator)),
        g != h ==> grouped(tools, separator)[g].0 != grouped(tools, separator)[h].0,
    decreases tools.len(),
{
    lemma_distinct_groups(tools, separator);
    lemma_group_is_filter(tools, separator, g);
    if g < h {
        assert(grouped(tools, separator)[g].0 != grouped(tools, separator)[h].0);
    } else if h < g {
        assert(grouped(tools, separator)[h].0 != grouped(tools, separator)[g].0);
    }
}

/// The tools of a namespace, as they are indexed.
spec fn tools_in(tools: Seq<ToolDefinition>, separator: Seq<char>, namespace: Seq<char>) -> Seq<
    ToolView,
> {
    tools.filter(
        |tool: ToolDefinition| namespace_of(tool.name@, separator) == namespace,
    ).map_values(|tool: ToolDefinition| indexed(tool, separator))
}

proof fn lemma_tools_in(tools: Seq<ToolDefinition>, separator: Seq<char>, namespace: Seq<char>)
    requires
        tools.len() > 0,
    ensures
        namespace_of(tools.last().name@, separator) == namespace ==> tools_in(
            tools,
            separator,
            namespace,
        ) == tools_in(tools.drop_last(), separator, namespace).push(
            indexed(tools.last(), separator),
        ),
        namespace_of(tools.last().name@, separator) != namespace ==> tools_in(
            tools,
            separator,
            namespace,
        ) == tools_in(tools.drop_last(), separator, namespace),
{
    reveal(Seq::filter);
    if namespace_of(tools.last().name@, separator) == namespace {
        assert(tools_in(tools, separator, namespace) =~= tools_in(
            tools.drop_last(),
            separator,
            namespace,
        ).push(indexed(tools.last(), separator)));
    } else {
        assert(tools_in(tools, separator, namespace) =~= tools_in(
            tools.drop_last(),
            separator,
            namespace,
        ));
    }
}

proof fn lemma_no_tools_in(tools: Seq<ToolDefinition>, separator: Seq<char>, namespace: Seq<char>)
    requires
        forall|i: int| !group_at(grouped(tools, separator), namespace, i),
    ensures
        tools_in(tools, separator, namespace) == Seq::<ToolView>::empty(),
    decreases tools.len(),
{
    if tools.len() == 0 {
        reveal(Seq::filter);
        assert(tools_in(tools, separator, namespace) =~= Seq::<ToolView>::empty());
    } else {
        let rest = tools.drop_last();
        lemma_every_tool_stands(tools, separator, tools.len() - 1);
        let last = namespace_of(tools.last().name@, separator);
        let (g, p) = choose|g: int, p: int|
            stands_at(
                grouped(tools, separator),
                last,
                indexed(tools.last(), separator),
                g,
                p,
            );
        assert(group_at(grouped(tools, separator), last, g));
        assert(last != namespace);
        let before = grouped(rest, separator);
        let after = grouped(tools, separator);
        assert forall|i: int| !group_at(before, namespace, i) by {
            if group_at(before, namespace, i) {
                assert(after[i].0 == before[i].0);
                assert(group_at(after, namespace, i));
            }
        }
        lemma_no_tools_in(rest, separator, namespace);
        lemma_tools_in(tools, separator, namespace);
    }
}

proof fn lemma_group_is_filter(tools: Seq<ToolDefinition>, separator: Seq<char>, g: int)
    requires
        0 <= g < grouped(tools, separator).len(),
    ensures
        grouped(tools, separator)[g].1 == tools_in(
            tools,
            separator,
            grouped(tools, separator)[g].0,
        ),
    decreases tools.len(),
{
    let rest = tools.drop_last();
    let before = grouped(rest, separator);
    let after = grouped(tools, separator);
    let last = namespace_of(tools.last().name@, separator);
    lemma_tools_in(tools, separator, after[g].0);
    lemma_distinct_groups(rest, separator);
    if exists|i: int| group_at(before, last, i) {
        let i = choose|i: int| group_at(before, last, i);
        lemma_group_is_filter(rest, separator, g);
        if g != i {
            if g < i {
                assert(before[g].0 != before[i].0);
            } else {
                assert(before[i].0 != before[g].0);
            }
        }
    } else if g == before.len() {
        lemma_no_tools_in(rest, separator, last);
        assert(seq![indexed(tools.last(), separator)] =~= Seq::<ToolView>::empty().push(
            indexed(tools.last(), separator),
        ));
    } else {
        lemma_group_is_filter(rest, separator, g);
        assert(!group_at(before, last, g));
    }
}

/// The namespace of every tool has a group.
pub proof fn every_namespace_has_a_group(
    tools: Seq<ToolDefinition>,
    separator: Seq<char>,
    k: int,
)
    requires
        0 <= k < tools.len(),
    ensures
        exists|g: int|
            0 <= g < grouped(tools, separator).len() && (#[trigger] grouped(tools, separator)[g]).0
                == namespace_of(tools[k].name@, separator),
{
    lemma_every_tool_stands(tools, separator, k);
    let (g, p) = choose|g: int, p: int|
        stands_at(
            grouped(tools, separator),
            namespace_of(tools[k].name@, separator),
            indexed(tools[k], separator),
            g,
            p,
        );
    assert(grouped(tools, separator)[g].0 == namespace_of(tools[k].name@, separator));
}

/// A tool is registered under its server, a colon and its name; of two tools
/// of one name the later one counts.
pub proof fn registered_tools_stand_under_server_and_name(
    before: Map<Seq<char>, (Seq<char>, ToolView)>,
    server: Seq<char>,
    tools: Seq<ToolView>,
    p: int,
)
    requires
        0 <= p < tools.len(),
        forall|q: int| p < q < tools.len() ==> (#[trigger] tools[q]).name != tools[p].name,
    ensures
        registered(before, server, tools).contains_key(server + ":"@ + tools[p].name),
        registered(before, server, tools)[server + ":"@ + tools[p].name] == (server, tools[p]),
    decreases tools.len(),
{
    if p < tools.len() - 1 {
        let rest = tools.drop_last();
        assert forall|q: int| p < q < rest.len() implies (#[trigger] rest[q]).name
            != rest[p].name by {
            assert(rest[q] == tools[q]);
        }
        registered_tools_stand_under_server_and_name(before, server, rest, p);
        let last = tools[tools.len() - 1].name;
        assert(last != tools[p].name);
        lemma_ids_differ(server, last, tools[p].name);
    }
}

proof fn lemma_ids_differ(server: Seq<char>, a: Seq<char>, b: Seq<char>)
    requires
        a != b,
    ensures
        server + ":"@ + a != server + ":"@ + b,
{
    let start = server + ":"@;
    assert((start + a).skip(start.len() as int) =~= a);
    assert((start + b).skip(start.len() as int) =~= b);
}

/// Registering the tools of a server takes out what was registered for it, and
/// keeps what was registered for another server, but for what has the
/// identifier of a new tool.
pub proof fn registering_replaces_the_tools_of_a_server(
    before: Map<Seq<char>, (Seq<char>, ToolView)>,
    server: Seq<char>,
    tools: Seq<ToolView>,
    id: Seq<char>,
)
    requires
        forall|p: int|
            0 <= p < tools.len() ==> id != server + ":"@ + (#[trigger] tools[p]).name,
    ensures
        registered(before, server, tools).contains_key(id) <==> before.contains_key(id)
            && before[id].0 != server,
        registered(before, server, tools).contains_key(id) ==> registered(
            before,
            server,
            tools,
        )[id] == before[id],
    decreases tools.len(),
{
    if tools.len() > 0 {
        let rest = tools.drop_last();
        assert forall|p: int| 0 <= p < rest.len() implies id != server + ":"@ + (
        #[trigger] rest[p]).name by {
            assert(rest[p] == tools[p]);
        }
        registering_replaces_the_tools_of_a_server(before, server, rest, id);
        assert(id != server + ":"@ + tools[tools.len() - 1].name);
    }
}

/// Groups are registered one after the other, each for the server of its
/// namespace.
pub proof fn groups_are_registered_in_order(
    before: Map<Seq<char>, (Seq<char>, ToolView)>,
    groups: Seq<(Seq<char>, Seq<ToolView>)>,
    server: Seq<char>,
    tools: Seq<ToolView>,
)
    ensures
        all_registered(before, Seq::empty()) == before,
        all_registered(before, groups.push((server, tools))) == registered(
            all_registered(before, groups),
            server,
            tools,
        ),
{
    assert(groups.push((server, tools)).drop_last() =~= groups);
}

/// An empty index holds nothing, and a tool stands in the index under its
/// namespace, a colon and its name without the namespace.
pub proof fn identifiers_are_made_of_namespace_and_name(
    tool: ToolDefinition,
    separator: Seq<char>,
    id: Seq<char>,
)
    ensures
        id_of(tool, separator) == namespace_of(tool.name@, separator) + ":"@ + local_of(
            tool.name@,
            separator,
        ),
        !no_tools().contains_key(id),
{
}

/// A text can be indexed exactly where no piece behind an odd number of
/// backticks is a lone double quote apart from white space.
pub proof fn texts_with_quoted_backticks_are_not_indexed(text: Seq<char>)
    ensures
        indexable(text) <==> !(exists|i: int|
            0 <= i < pieces(text, '`').len() && i % 2 == 1 && trims_to(
                #[trigger] pieces(text, '`')[i],
                '"',
            )),
{
}

/// Tools can be indexed exactly where each description that there is can be.
pub proof fn descriptions_decide_on_indexing(tools: Seq<ToolDefinition>)
    ensures
        have_indexable_texts(tools) <==> forall|i: int|
            0 <= i < tools.len() && (#[trigger] tools[i]).description is Some ==> indexable(
                tools[i].description->0@,
            ),
{
    if have_indexable_texts(tools) {
        assert forall|i: int|
            0 <= i < tools.len() && (#[trigger] tools[i]).description is Some implies indexable(
            tools[i].description->0@,
        ) by {
            assert(indexable_if_any(optional(tools[i].description)));
        }
    }
}

/// Every search result is a registered tool, told as it is registered.
pub proof fn results_are_registered_tools(
    tools: Map<Seq<char>, (Seq<char>, ToolView)>,
    top_k: usize,
    entries: Seq<SearchResultEntry>,
    i: int,
    j: int,
)
    requires
        are_results(tools, top_k, entries),
        0 <= i <= j < entries.len(),
    ensures
        entries.len() <= top_k,
        tools.contains_key(entries[i].id@),
        tools[entries[i].id@].0 == entries[i].server@,
        tools[entries[i].id@].1.name == entries[i].name@,
        tools[entries[i].id@].1.description == optional(entries[i].description),
        tools[entries[i].id@].1.tags == texts(entries[i].tags@),
        tools[entries[i].id@].1.category == optional(entries[i].category),
        i != j ==> entries[i].id@ != entries[j].id@,
        0 < entries[j].score.bits <= entries[i].score.bits < 0x8000_0000_0000_0000,
{
    assert(is_found(tools, entries[i]));
    assert(0 < entries[j].score.bits);
}

/// A search gives as many results as asked for, or as there are matches where
/// there are fewer, and each one is a match.
pub proof fn results_are_matches(
    matches: Set<Seq<char>>,
    top_k: usize,
    entries: Seq<SearchResultEntry>,
    i: int,
)
    requires
        are_taken_from(matches, top_k, entries),
    ensures
        matches.len() >= top_k ==> entries.len() == top_k,
        matches.len() <= top_k ==> entries.len() == matches.len(),
        0 <= i < entries.len() ==> matches.contains(entries[i].id@),
{
}

/// A summary counts the tools that are registered in its category, and names
/// a server exactly where it has one of them, and a subcategory exactly where
/// one of them is of it.
pub proof fn summaries_count_the_tools_of_a_category(
    tools: Map<Seq<char>, (Seq<char>, ToolView)>,
    summaries: Seq<CategorySummary>,
    i: int,
)
    requires
        are_summaries(tools, summaries),
        0 <= i < summaries.len(),
    ensures
        summaries[i].tool_count > 0,
        summaries[i].tool_count == tools.dom().filter(
            |id: Seq<char>| tools[id].1.category == Some(summaries[i].name@),
        ).len(),
        forall|server: Seq<char>| #[trigger]
            texts(summaries[i].servers@).contains(server) <==> exists|id: Seq<char>|
                tools.contains_key(id) && tools[id].1.category == Some(summaries[i].name@) && (
                #[trigger] tools[id]).0 == server,
        forall|part: Seq<char>| #[trigger]
            texts(summaries[i].subcategories@).contains(part) <==> exists|id: Seq<char>|
                tools.contains_key(id) && tools[id].1.category == Some(summaries[i].name@) && (
                #[trigger] tools[id]).1.subcategory == Some(part),
        texts(summaries[i].servers@).no_duplicates(),
        texts(summaries[i].subcategories@).no_duplicates(),
{
    assert(summarizes(tools, summaries[i]));
    let ids = category_ids(tools, summaries[i].name@);
    assert forall|id: Seq<char>| #[trigger] ids.contains(id) <==> tools.contains_key(id)
        && tools[id].1.category == Some(summaries[i].name@) by {}
    assert forall|server: Seq<char>| #[trigger]
        texts(summaries[i].servers@).contains(server) <==> exists|id: Seq<char>|
            tools.contains_key(id) && tools[id].1.category == Some(summaries[i].name@) && (
            #[trigger] tools[id]).0 == server by {
        if texts(summaries[i].servers@).contains(server) {
            let id = choose|id: Seq<char>| ids.contains(id) && (#[trigger] tools[id]).0 == server;
            assert(tools[id].0 == server);
        }
        if exists|id: Seq<char>|
            tools.contains_key(id) && tools[id].1.category == Some(summaries[i].name@) && (
            #[trigger] tools[id]).0 == server {
            let id = choose|id: Seq<char>|
                tools.contains_key(id) && tools[id].1.category == Some(summaries[i].name@) && (
                #[trigger] tools[id]).0 == server;
            assert(ids.contains(id) && tools[id].0 == server);
        }
    }
    assert forall|part: Seq<char>| #[trigger]
        texts(summaries[i].subcategories@).contains(part) <==> exists|id: Seq<char>|
            tools.contains_key(id) && tools[id].1.category == Some(summaries[i].name@) && (
            #[trigger] tools[id]).1.subcategory == Some(part) by {
        if texts(summaries[i].subcategories@).contains(part) {
            let id = choose|id: Seq<char>|
                ids.contains(id) && (#[trigger] tools[id]).1.subcategory == Some(part);
            assert(tools[id].1.subcategory == Some(part));
        }
        if exists|id: Seq<char>|
            tools.contains_key(id) && tools[id].1.category == Some(summaries[i].name@) && (
            #[trigger] tools[id]).1.subcategory == Some(part) {
            let id = choose|id: Seq<char>|
                tools.contains_key(id) && tools[id].1.category == Some(summaries[i].name@) && (
                #[trigger] tools[id]).1.subcategory == Some(part);
            assert(ids.contains(id) && tools[id].1.subcategory == Some(part));
        }
    }
    assert(category_ids(tools, summaries[i].name@) =~= tools.dom().filter(
        |id: Seq<char>| tools[id].1.category == Some(summaries[i].name@),
    ));
}

/// Every category of a registered tool has one summary.
pub proof fn every_category_has_a_summary(
    tools: Map<Seq<char>, (Seq<char>, ToolView)>,
    summaries: Seq<CategorySummary>,
    id: Seq<char>,
)
    requires
        are_summaries(tools, summaries),
        tools.contains_key(id),
        tools[id].1.category is Some,
    ensures
        exists|i: int|
            0 <= i < summaries.len() && Some((#[trigger] summaries[i]).name@)
                == tools[id].1.category,
        forall|i: int, j: int|
            0 <= i < j < summaries.len() ==> (#[trigger] summaries[i]).name@ != (
            #[trigger] summaries[j]).name@,
{
    let name = tools[id].1.category->0;
    assert(category_ids(tools, name).contains(id));
    let i = choose|i: int| 0 <= i < summaries.len() && (#[trigger] summaries[i]).name@ == name;
    assert(summaries[i].name@ == name);
}

proof fn lemma_put_is_stable(sorted: Seq<CategorySummary>, c: CategorySummary, count: usize)
    requires
        descends(sorted),
    ensures
        put_in_order(sorted, c).filter(|s: CategorySummary| s.tool_count == count)
            == sorted.push(c).filter(|s: CategorySummary| s.tool_count == count),
    decreases sorted.len(),
{
    let same = |s: CategorySummary| s.tool_count == count;
    if sorted.len() == 0 || sorted.last().tool_count >= c.tool_count {
    } else {
        let rest = sorted.drop_last();
        assert(descends(rest)) by {
            assert forall|i: int, j: int| 0 <= i <= j < rest.len() implies (
            #[trigger] rest[i]).tool_count >= (#[trigger] rest[j]).tool_count by {
                assert(rest[i] == sorted[i] && rest[j] == sorted[j]);
            }
        }
        lemma_put_is_stable(rest, c, count);
        let last = sorted.last();
        assert(sorted =~= rest.push(last));
        put_in_order(rest, c).lemma_filter_push(last, same);
        rest.lemma_filter_push(c, same);
        rest.lemma_filter_push(last, same);
        sorted.lemma_filter_push(c, same);
    }
}

/// Categories come with the ones that have the most tools first, and those
/// with as many tools stay in the order in which they came.
pub proof fn equal_categories_stay_in_order(categories: Seq<CategorySummary>, count: usize)
    ensures
        in_order(categories).filter(|c: CategorySummary| c.tool_count == count)
            == categories.filter(|c: CategorySummary| c.tool_count == count),
        forall|i: int, j: int|
            0 <= i < j < in_order(categories).len() ==> (#[trigger] in_order(
                categories,
            )[i]).tool_count >= (#[trigger] in_order(categories)[j]).tool_count,
    decreases categories.len(),
{
    let same = |c: CategorySummary| c.tool_count == count;
    order_keeps_categories(categories);
    if categories.len() == 0 {
        assert(in_order(categories) =~= categories);
    } else {
        let rest = categories.drop_last();
        let c = categories.last();
        equal_categories_stay_in_order(rest, count);
        order_keeps_categories(rest);
        lemma_put_is_stable(in_order(rest), c, count);
        in_order(rest).lemma_filter_push(c, same);
        rest.lemma_filter_push(c, same);
        assert(categories =~= rest.push(c));
    }
}

} // verus!
