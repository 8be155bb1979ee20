//! Tools that are WASM modules, run under a limit of fuel.
use vstd::prelude::*;

use crate::isolation::error::{IsolationError, IsolationErrorV};
use crate::json::{Json, JsonV, empty_object, render, rendered};
use crate::table::Table;
use crate::text::{contains, has, views};

verus! {

#[verifier::external_type_specification]
#[verifier::external_body]
pub struct ExEngine(wasmtime::Engine);

#[verifier::external_type_specification]
#[verifier::external_body]
pub struct ExModule(wasmtime::Module);

/// Whether code that an engine compiles uses up fuel as it runs.
pub uninterp spec fn meters_fuel(engine: wasmtime::Engine) -> bool;

/// `wasmtime::Engine::new` gives an engine that meters fuel exactly if its
/// configuration says so. Whether it succeeds rests on the machine and is not
/// stated.
#[verifier::external_body]
fn new_engine(consume_fuel: bool) -> (r: Result<wasmtime::Engine, String>)
    ensures
        r matches Ok(engine) ==> meters_fuel(engine) == consume_fuel,
{
    let mut config = wasmtime::Config::new();
    config.consume_fuel(consume_fuel);
    wasmtime::Engine::new(&config).map_err(|e| e.to_string())
}

/// The bytes that a module was compiled from.
pub uninterp spec fn source_of(m: wasmtime::Module) -> Seq<u8>;

/// The engine that a module was compiled by: `wasmtime::Module::engine`.
pub uninterp spec fn engine_of(m: wasmtime::Module) -> wasmtime::Engine;

/// `wasmtime::Module::new` gives the module that the bytes write, which belongs to
/// the engine that compiled it. It compiles for the machine at hand: whether it
/// succeeds, and with which machine code, rests on that machine as well and is not
/// stated.
#[verifier::external_body]
fn compile(engine: &wasmtime::Engine, wasm_bytes: &[u8]) -> (r: Result<wasmtime::Module, String>)
    ensures
        r matches Ok(m) ==> source_of(m) == wasm_bytes@ && engine_of(m) == *engine,
{
    wasmtime::Module::new(engine, wasm_bytes).map_err(|e| e.to_string())
}

/// How a run of a module ended.
#[derive(Debug)]
pub enum RunEnd {
    /// The fuel could not be set.
    FuelRefused(String),
    /// The imports could not be linked.
    NotLinked(String),
    /// The module could not be instantiated.
    NotInstantiated(String),
    /// The module has no entry point.
    NoEntry,
    /// The module was stopped.
    Stopped(String),
    /// The module ran to its end.
    Finished,
}

/// The answer to a run that ended so.
pub open spec fn run_result(tool: Seq<char>, end: RunEnd) -> Result<JsonV, IsolationErrorV> {
    match end {
        RunEnd::FuelRefused(m) => Err(IsolationErrorV::FuelError(m@)),
        RunEnd::NotLinked(m) => Err(IsolationErrorV::Wasmtime(m@)),
        RunEnd::NotInstantiated(m) => Err(IsolationErrorV::InstantiationFailed(m@)),
        RunEnd::NoEntry => Err(IsolationErrorV::MissingExport { tool, export: "_start"@ }),
        RunEnd::Stopped(m) => if contains(m@, "fuel"@) {
            Err(IsolationErrorV::FuelExhausted)
        } else {
            Err(IsolationErrorV::ExecutionFailed(m@))
        },
        RunEnd::Finished => Ok(empty_object().with("status"@, JsonV::Text("ok"@))),
    }
}

/// Compiled tools by their names.
pub struct WasmtimeSandbox {
    engine: wasmtime::Engine,
    modules: Table<wasmtime::Module>,
}

impl WasmtimeSandbox {
    /// The compiled tools by their names.
    pub closed spec fn view(&self) -> Map<Seq<char>, wasmtime::Module> {
        self.modules@
    }

    /// The engine meters fuel, and every tool was compiled by it.
    pub open spec fn wf(&self) -> bool {
        &&& meters_fuel(self.runs_on())
        &&& forall|t: Seq<char>| #[trigger] self@.dom().contains(t) ==> engine_of(self@[t]) == self.runs_on()
    }

    /// A sandbox without tools whose engine meters fuel, or the engine's error.
    pub fn new() -> (r: Result<WasmtimeSandbox, IsolationError>)
        ensures
            match r {
                Ok(s) => s.wf() && s@ == Map::<Seq<char>, wasmtime::Module>::empty(),
                Err(e) => e@ is Wasmtime,
            },
    {
        match new_engine(true) {
            Ok(engine) => Ok(WasmtimeSandbox { engine, modules: Table::new() }),
            Err(m) => Err(IsolationError::Wasmtime(m)),
        }
    }

    /// Takes the outcome of a compilation by this sandbox's engine in.
    pub fn keep(&mut self, tool_name: &str, compiled: Result<wasmtime::Module, String>) -> (r: Result<
        (),
        IsolationError,
    >)
        requires
            old(self).wf(),
            compiled matches Ok(m) ==> engine_of(m) == old(self).runs_on(),
        ensures
            final(self).wf(),
            final(self).runs_on() == old(self).runs_on(),
            match compiled {
                Ok(m) => r is Ok && final(self)@ == old(self)@.insert(tool_name@, m),
                Err(reason) => {
                    &&& final(self)@ == old(self)@
                    &&& r matches Err(e) && e@ == (IsolationErrorV::CompilationFailed {
                        tool: tool_name@,
                        reason: reason@,
                    })
                },
            },
    {
        match compiled {
            Ok(m) => {
                self.modules.insert(tool_name.to_owned(), m);
                proof {
                    assert forall|t: Seq<char>| #[trigger] self@.dom().contains(t) implies engine_of(self@[t])
                        == self.runs_on() by {
                        if t != tool_name@ {
                            assert(old(self)@.dom().contains(t));
                        }
                    }
                }
                Ok(())
            },
            Err(reason) => Err(IsolationError::CompilationFailed { tool: tool_name.to_owned(), reason }),
        }
    }

    /// Compiles a tool and keeps it; an earlier one of the name is dropped.
    pub fn precompile_tool(&mut self, tool_name: &str, wasm_bytes: &[u8]) -> (r: Result<(), IsolationError>)
        requires
            old(self).wf(),
        ensures
            final(self).wf(),
            final(self).runs_on() == old(self).runs_on(),
            match r {
                Ok(_) => {
                    let m = final(self)@[tool_name@];
                    &&& final(self)@ == old(self)@.insert(tool_name@, m)
                    &&& source_of(m) == wasm_bytes@
                    &&& engine_of(m) == old(self).runs_on()
                },
                Err(e) => {
                    &&& final(self)@ == old(self)@
                    &&& e@ matches IsolationErrorV::CompilationFailed { tool, reason }
                    &&& tool == tool_name@
                },
            },
    {
        let compiled = compile(&self.engine, wasm_bytes);
        self.keep(tool_name, compiled)
    }

    /// Whether a tool is compiled.
    pub fn has_tool(&self, tool_name: &str) -> (r: bool)
        ensures
            r == self@.dom().contains(tool_name@),
    {
        self.modules.has(tool_name)
    }

    /// The names of the compiled tools, each once.
    pub fn tool_names(&self) -> (r: Vec<String>)
        ensures
            views(r@).no_duplicates(),
            views(r@).to_set() == self@.dom(),
    {
        let n: usize = self.modules.len();
        let mut out: Vec<String> = Vec::new();
        let mut i: usize = 0;
        while i < n
            invariant
                i <= n,
                n == self.modules.order().len(),
                out@.len() == i,
                forall|k: int| 0 <= k < i ==> (#[trigger] out@[k])@ == self.modules.order()[k],
            decreases n - i,
        {
            out.push(self.modules.key_at(i).to_owned());
            i += 1;
        }
        proof {
            assert(views(out@) =~= self.modules.order());
        }
        out
    }

    /// The compiled tool of a name. It belongs to the sandbox's engine, so that it
    /// uses up fuel.
    pub fn module_of(&self, tool_name: &str) -> (r: Result<&wasmtime::Module, IsolationError>)
        requires
            self.wf(),
        ensures
            match r {
                Ok(m) => {
                    &&& self@.dom().contains(tool_name@)
                    &&& *m == self@[tool_name@]
                    &&& engine_of(*m) == self.runs_on()
                    &&& meters_fuel(engine_of(*m))
                },
                Err(e) => !self@.dom().contains(tool_name@) && e@ == IsolationErrorV::ToolNotFound(tool_name@),
            },
    {
        match self.modules.get(tool_name) {
            Some(m) => Ok(m),
            None => Err(IsolationError::ToolNotFound(tool_name.to_owned())),
        }
    }

    /// The engine that the tools run on; it meters fuel.
    pub fn engine(&self) -> (r: &wasmtime::Engine)
        requires
            self.wf(),
        ensures
            *r == self.runs_on(),
            meters_fuel(*r),
    {
        &self.engine
    }

    /// The engine that the tools run on.
    pub closed spec fn runs_on(&self) -> wasmtime::Engine {
        self.engine
    }

    /// What a tool reads as its input.
    pub fn input_text(input: &Json) -> (r: String)
        ensures
            r@ == rendered(input@),
    {
        render(input)
    }

    /// The answer to a run that ended so.
    pub fn execute(tool_name: &str, end: RunEnd) -> (r: Result<Json, IsolationError>)
        ensures
            match r {
                Ok(v) => run_result(tool_name@, end) == Ok::<JsonV, IsolationErrorV>(v@),
                Err(e) => run_result(tool_name@, end) == Err::<JsonV, IsolationErrorV>(e@),
            },
    {
        match end {
            RunEnd::FuelRefused(m) => Err(IsolationError::FuelError(m)),
            RunEnd::NotLinked(m) => Err(IsolationError::Wasmtime(m)),
            RunEnd::NotInstantiated(m) => Err(IsolationError::InstantiationFailed(m)),
            RunEnd::NoEntry => Err(
                IsolationError::MissingExport { tool: tool_name.to_owned(), export: "_start".to_owned() },
            ),
            RunEnd::Stopped(m) => if has(m.as_str(), "fuel") {
                Err(IsolationError::FuelExhausted)
            } else {
                Err(IsolationError::ExecutionFailed(m))
            },
            RunEnd::Finished => Ok(Json::object().with("status", Json::text("ok"))),
        }
    }
}

} // verus!
