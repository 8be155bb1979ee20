//! Which backend runs a tool.
use vstd::prelude::*;

use crate::json::{Json, JsonV};
use crate::llm::provider::{ConcurrencyPolicy, ToolDefinition};
use crate::table::Table;
use crate::text::{concat, views};
use crate::tools::error::{ToolError, ToolErrorV};

verus! {

/// A tool that is part of the program.
pub trait BuiltinTool {
    /// What the tool is for.
    spec fn about(&self) -> Seq<char>;

    /// The parameters of the tool.
    spec fn schema(&self) -> JsonV;

    /// What the tool is for.
    fn description(&self) -> (r: &str)
        ensures
            r@ == self.about(),
    ;

    /// The parameters of the tool.
    fn parameters_schema(&self) -> (r: Json)
        ensures
            r@ == self.schema(),
    ;
}

pub struct DefinitionV {
    pub name: Seq<char>,
    pub description: Seq<char>,
    pub parameters: JsonV,
    pub concurrency: ConcurrencyPolicy,
}

pub open spec fn definition_view(d: ToolDefinition) -> DefinitionV {
    DefinitionV {
        name: d.name@,
        description: d.description@,
        parameters: d.parameters@,
        concurrency: d.concurrency,
    }
}

pub open spec fn definition_views(v: Seq<ToolDefinition>) -> Seq<DefinitionV> {
    v.map_values(|d: ToolDefinition| definition_view(d))
}

/// Where a tool runs.
#[derive(Debug)]
pub enum ToolBackend<B> {
    /// In the program.
    Builtin(B),
    /// On an MCP server.
    Mcp { server_name: String, definition: ToolDefinition },
    /// In a WASM sandbox.
    Wasm { module_name: String },
}

pub enum BackendV<B> {
    Builtin(B),
    Mcp { server_name: Seq<char>, definition: DefinitionV },
    Wasm { module_name: Seq<char> },
}

impl<B> View for ToolBackend<B> {
    type V = BackendV<B>;

    open spec fn view(&self) -> BackendV<B> {
        match *self {
            ToolBackend::Builtin(b) => BackendV::Builtin(b),
            ToolBackend::Mcp { server_name, definition } => BackendV::Mcp {
                server_name: server_name@,
                definition: definition_view(definition),
            },
            ToolBackend::Wasm { module_name } => BackendV::Wasm { module_name: module_name@ },
        }
    }
}

/// Where a call goes.
#[derive(Debug)]
pub enum Route<'a, B> {
    /// To the tool.
    Builtin(&'a B),
    /// To a server.
    Mcp { server_name: &'a str },
}

/// What a model is told of a tool; nothing of one that it cannot call.
pub open spec fn offered<B: BuiltinTool>(name: Seq<char>, backend: BackendV<B>) -> Option<DefinitionV> {
    match backend {
        BackendV::Builtin(b) => Some(
            DefinitionV {
                name,
                description: b.about(),
                parameters: b.schema(),
                concurrency: ConcurrencyPolicy::Safe,
            },
        ),
        BackendV::Mcp { definition, .. } => Some(definition),
        BackendV::Wasm { .. } => None,
    }
}

/// What a model is told of the tools of the given names, in order.
pub open spec fn all_offered<B: BuiltinTool>(names: Seq<Seq<char>>, tools: Map<Seq<char>, BackendV<B>>) -> Seq<
    DefinitionV,
>
    decreases names.len(),
{
    if names.len() == 0 {
        Seq::empty()
    } else {
        let earlier = all_offered(names.drop_last(), tools);
        match offered(names.last(), tools[names.last()]) {
            Some(d) => earlier.push(d),
            None => earlier,
        }
    }
}

/// Why a call cannot be routed.
pub open spec fn route_error<B>(tool: Seq<char>, backend: Option<BackendV<B>>, has_registry: bool) -> Option<
    ToolErrorV,
> {
    match backend {
        None => Some(ToolErrorV::NotFound(tool)),
        Some(BackendV::Builtin(_)) => None,
        Some(BackendV::Mcp { .. }) => if has_registry {
            None
        } else {
            Some(
                ToolErrorV::ExecutionFailed {
                    tool,
                    reason: "MCP registry not configured on this executor"@,
                },
            )
        },
        Some(BackendV::Wasm { module_name }) => Some(
            ToolErrorV::ExecutionFailed {
                tool,
                reason: "WASM module '"@ + module_name
                    + "' is not runnable on the default tool path; WASM isolation is an experimental opt-in tier"@,
            },
        ),
    }
}

/// The tools by their names.
pub struct ToolExecutor<B> {
    tools: Table<ToolBackend<B>>,
    mcp: bool,
}

impl<B: BuiltinTool> ToolExecutor<B> {
    /// The tools by their names.
    pub closed spec fn view(&self) -> Map<Seq<char>, BackendV<B>> {
        self.tools@.map_values(|b: ToolBackend<B>| b@)
    }

    /// The names in the order in which they were first registered.
    pub closed spec fn order(&self) -> Seq<Seq<char>> {
        self.tools.order()
    }

    /// Calls of MCP tools can be routed.
    pub closed spec fn has_registry(&self) -> bool {
        self.mcp
    }

    /// No tools.
    pub fn new() -> (r: ToolExecutor<B>)
        ensures
            r@ == Map::<Seq<char>, BackendV<B>>::empty(),
            r.order() == Seq::<Seq<char>>::empty(),
            !r.has_registry(),
    {
        let r = ToolExecutor { tools: Table::new(), mcp: false };
        proof {
            assert(r@ =~= Map::<Seq<char>, BackendV<B>>::empty());
        }
        r
    }

    /// The executor with a registry that routes calls of MCP tools.
    pub fn with_mcp_registry(self) -> (r: ToolExecutor<B>)
        ensures
            r@ == self@,
            r.order() == self.order(),
            r.has_registry(),
    {
        ToolExecutor { tools: self.tools, mcp: true }
    }

    fn register(&mut self, name: &str, backend: ToolBackend<B>)
        ensures
            final(self)@ == old(self)@.insert(name@, backend@),
            final(self).has_registry() == old(self).has_registry(),
            final(self).order() == if old(self)@.dom().contains(name@) {
                old(self).order()
            } else {
                old(self).order().push(name@)
            },
    {
        let ghost before = self@;
        self.tools.insert(name.to_owned(), backend);
        proof {
            assert(self@ =~= before.insert(name@, backend@));
        }
    }

    /// Registers a tool that is part of the program.
    pub fn register_builtin(&mut self, name: &str, tool: B)
        ensures
            final(self)@ == old(self)@.insert(name@, BackendV::Builtin(tool)),
            final(self).has_registry() == old(self).has_registry(),
            final(self).order() == if old(self)@.dom().contains(name@) {
                old(self).order()
            } else {
                old(self).order().push(name@)
            },
    {
        self.register(name, ToolBackend::Builtin(tool));
    }

    /// Registers a tool of a server under its qualified name.
    pub fn register_mcp(&mut self, name: &str, server_name: &str, definition: ToolDefinition)
        ensures
            final(self)@ == old(self)@.insert(
                name@,
                (BackendV::Mcp { server_name: server_name@, definition: definition_view(definition) }),
            ),
            final(self).has_registry() == old(self).has_registry(),
            final(self).order() == if old(self)@.dom().contains(name@) {
                old(self).order()
            } else {
                old(self).order().push(name@)
            },
    {
        self.register(name, ToolBackend::Mcp { server_name: server_name.to_owned(), definition });
    }

    /// Registers a WASM tool.
    pub fn register_wasm(&mut self, name: &str, module_name: &str)
        ensures
            final(self)@ == old(self)@.insert(name@, (BackendV::Wasm { module_name: module_name@ })),
            final(self).has_registry() == old(self).has_registry(),
            final(self).order() == if old(self)@.dom().contains(name@) {
                old(self).order()
            } else {
                old(self).order().push(name@)
            },
    {
        self.register(name, ToolBackend::Wasm { module_name: module_name.to_owned() });
    }

    /// What stands under a name.
    pub open spec fn found(&self, name: Seq<char>) -> Option<BackendV<B>> {
        if self@.dom().contains(name) {
            Some(self@[name])
        } else {
            None
        }
    }

    /// Where a call of a tool goes, or why it goes nowhere.
    pub fn execute<'a>(&'a self, tool_name: &str) -> (r: Result<Route<'a, B>, ToolError>)
        ensures
            match r {
                Ok(route) => {
                    &&& route_error(tool_name@, self.found(tool_name@), self.has_registry()) is None
                    &&& match route {
                        Route::Builtin(b) => self.found(tool_name@) == Some(BackendV::Builtin(*b)),
                        Route::Mcp { server_name } => self.found(tool_name@) matches Some(
                            BackendV::Mcp { server_name: s, .. },
                        ) && s == server_name@,
                    }
                },
                Err(e) => route_error(tool_name@, self.found(tool_name@), self.has_registry()) == Some(e@),
            },
    {
        match self.tools.get(tool_name) {
            None => Err(ToolError::NotFound(tool_name.to_owned())),
            Some(backend) => {
                proof {
                    assert(self@[tool_name@] == backend@);
                }
                match backend {
                    ToolBackend::Builtin(b) => Ok(Route::Builtin(b)),
                    ToolBackend::Mcp { server_name, .. } => if self.mcp {
                        Ok(Route::Mcp { server_name: server_name.as_str() })
                    } else {
                        Err(
                            ToolError::ExecutionFailed {
                                tool: tool_name.to_owned(),
                                reason: "MCP registry not configured on this executor".to_owned(),
                            },
                        )
                    },
                    ToolBackend::Wasm { module_name } => {
                        let head = concat("WASM module '", module_name.as_str());
                        Err(
                            ToolError::ExecutionFailed {
                                tool: tool_name.to_owned(),
                                reason: concat(
                                    head.as_str(),
                                    "' is not runnable on the default tool path; WASM isolation is an experimental opt-in tier",
                                ),
                            },
                        )
                    },
                }
            },
        }
    }

    /// The name that a server knows a tool by: the one that it registered, or
    /// the one that was called.
    pub fn bare_name(original: Option<&str>, tool_name: &str) -> (r: String)
        ensures
            r@ == match original {
                Some(o) => o@,
                None => tool_name@,
            },
    {
        match original {
            Some(o) => o.to_owned(),
            None => tool_name.to_owned(),
        }
    }

    /// The names of all tools, in the order in which they were registered.
    pub fn tool_names(&self) -> (r: Vec<String>)
        ensures
            views(r@) == self.order(),
            views(r@).no_duplicates(),
            views(r@).to_set() == self@.dom(),
    {
        let n: usize = self.tools.len();
        let mut out: Vec<String> = Vec::new();
        let mut i: usize = 0;
        while i < n
            invariant
                i <= n,
                n == self.tools.order().len(),
                out@.len() == i,
                forall|k: int| 0 <= k < i ==> (#[trigger] out@[k])@ == self.tools.order()[k],
            decreases n - i,
        {
            out.push(self.tools.key_at(i).to_owned());
            i += 1;
        }
        proof {
            assert(views(out@) =~= self.tools.order());
            assert(self@.dom() =~= self.tools@.dom());
        }
        out
    }

    /// Whether calls of a tool may run beside others; nothing of an unknown
    /// one.
    pub fn get_concurrency_policy(&self, tool_name: &str) -> (r: Option<ConcurrencyPolicy>)
        ensures
            r == if self@.dom().contains(tool_name@) {
                Some(ConcurrencyPolicy::Safe)
            } else {
                None
            },
    {
        if self.tools.has(tool_name) {
            Some(ConcurrencyPolicy::Safe)
        } else {
            None
        }
    }

    /// What a model is told of the tools.
    pub fn as_llm_tools(&self) -> (r: Vec<ToolDefinition>)
        ensures
            definition_views(r@) == all_offered(self.order(), self@),
    {
        let n: usize = self.tools.len();
        let ghost order = self.order();
        let mut out: Vec<ToolDefinition> = Vec::new();
        let mut i: usize = 0;
        proof {
            assert(definition_views(out@) =~= Seq::<DefinitionV>::empty());
            assert(order.take(0).len() == 0);
        }
        while i < n
            invariant
                i <= n,
                n == self.tools.order().len(),
                order == self.tools.order(),
                definition_views(out@) == all_offered(order.take(i as int), self@),
            decreases n - i,
        {
            let ghost before = out@;
            let name = self.tools.key_at(i);
            let backend = self.tools.value_at(i);
            proof {
                assert(order.take(i + 1).drop_last() =~= order.take(i as int));
                assert(order.take(i + 1).last() == name@);
                assert(self@[name@] == backend@);
            }
            match backend {
                ToolBackend::Builtin(b) => {
                    out.push(
                        ToolDefinition {
                            name: name.to_owned(),
                            description: b.description().to_owned(),
                            parameters: b.parameters_schema(),
                            concurrency: ConcurrencyPolicy::Safe,
                        },
                    );
                    proof {
                        assert(definition_views(out@) =~= definition_views(before).push(
                            definition_view(out@.last()),
                        ));
                    }
                },
                ToolBackend::Mcp { definition, .. } => {
                    out.push(
                        ToolDefinition {
                            name: definition.name.clone(),
                            description: definition.description.clone(),
                            parameters: definition.parameters.copy(),
                            concurrency: definition.concurrency,
                        },
                    );
                    proof {
                        assert(definition_views(out@) =~= definition_views(before).push(
                            definition_view(out@.last()),
                        ));
                    }
                },
                ToolBackend::Wasm { .. } => {},
            }
            i += 1;
        }
        proof {
            assert(order.take(order.len() as int) =~= order);
        }
        out
    }
}

impl<B: BuiltinTool> Default for ToolExecutor<B> {
    fn default() -> (r: ToolExecutor<B>)
        ensures
            r@ == Map::<Seq<char>, BackendV<B>>::empty(),
            r.order() == Seq::<Seq<char>>::empty(),
            !r.has_registry(),
    {
        ToolExecutor::new()
    }
}

/// A model is never offered a tool that a call could not reach: with a
/// registry, every tool that is offered is routed.
pub proof fn law_offered_tools_are_routed<B: BuiltinTool>(name: Seq<char>, backend: BackendV<B>)
    requires
        offered(name, backend) is Some,
    ensures
        route_error(name, Some(backend), true) is None,
{
}

} // verus!
