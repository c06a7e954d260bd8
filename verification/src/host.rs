//! The registry of loaded extensions and the loader interface over it.

use crate::policy::{Capability, HttpPolicy, Policy};
use crate::tables::NameTable;
use crate::text::{copy_texts, lemma_texts_push, texts};
use vstd::prelude::*;
use vstd::string::*;

verus! {

/// How often the engine's clock ticks, in milliseconds.
pub const EPOCH_TICK_MS: u64 = 1;

/// The code of every loader error.
pub const LOADER_ERROR: i32 = 1;

/// `wasmtime::Engine`, which compiles components.
#[verifier::external_type_specification]
#[verifier::external_body]
pub struct ExEngine(wasmtime::Engine);

/// `wasmtime::component::Component`, a compiled component.
#[verifier::external_type_specification]
#[verifier::external_body]
pub struct ExComponent(wasmtime::component::Component);

/// What compiled code is tuned for.
#[derive(Copy, Clone, Debug, PartialEq, Eq, Structural)]
pub enum Tuning {
    /// A short compilation.
    Compilation,
    /// Fast code.
    Speed,
    /// Fast and small code.
    SpeedAndSize,
}

/// The switches that an engine is made with.
#[derive(Copy, Clone, Debug, PartialEq, Eq, Structural)]
pub struct EngineSettings {
    pub component_model: bool,
    pub fuel: bool,
    pub epochs: bool,
    pub tuning: Tuning,
}

/// The switches that a host's engine is made with: components are compiled to fast
/// code that is held to its fuel and its deadlines.
pub open spec fn host_settings() -> EngineSettings {
    EngineSettings { component_model: true, fuel: true, epochs: true, tuning: Tuning::Speed }
}

/// `wasmtime::Engine::new` with a `wasmtime::Config` of these switches. Nothing is
/// claimed of the outcome, which rests on the machine that the engine is made for;
/// an error comes as its text.
#[verifier::external_body]
fn new_engine(s: EngineSettings) -> (r: Result<wasmtime::Engine, String>) {
    let mut config = wasmtime::Config::new();
    config.wasm_component_model(s.component_model);
    config.consume_fuel(s.fuel);
    config.epoch_interruption(s.epochs);
    config.cranelift_opt_level(match s.tuning {
        Tuning::Compilation => wasmtime::OptLevel::None,
        Tuning::Speed => wasmtime::OptLevel::Speed,
        Tuning::SpeedAndSize => wasmtime::OptLevel::SpeedAndSize,
    });
    wasmtime::Engine::new(&config).map_err(|e| e.to_string())
}

/// `made` is an outcome of making an engine with these switches.
pub closed spec fn engine_outcome(
    s: EngineSettings,
    made: Result<wasmtime::Engine, String>,
) -> bool {
    call_ensures(new_engine, (s,), made)
}

/// `wasmtime::component::Component::from_binary`. Nothing is claimed of the
/// outcome, which rests on the engine's settings and on the machine that it
/// compiles for; an error comes as its text.
#[verifier::external_body]
fn compile(engine: &wasmtime::Engine, bytes: &[u8]) -> (r: Result<
    wasmtime::component::Component,
    String,
>) {
    wasmtime::component::Component::from_binary(engine, bytes).map_err(|e| e.to_string())
}

/// `compiled` is an outcome of compiling `bytes` with `engine`.
pub closed spec fn compile_outcome(
    engine: wasmtime::Engine,
    bytes: &[u8],
    compiled: Result<wasmtime::component::Component, String>,
) -> bool {
    call_ensures(compile, (&engine, bytes), compiled)
}

/// An outcome is one of the very engine, settings and bytes that it is said to be of.
proof fn lemma_outcomes(
    s: EngineSettings,
    made: Result<wasmtime::Engine, String>,
    engine: wasmtime::Engine,
    bytes: &[u8],
    compiled: Result<wasmtime::component::Component, String>,
)
    ensures
        engine_outcome(s, made) <==> call_ensures(new_engine, (s,), made),
        compile_outcome(engine, bytes, compiled) <==> call_ensures(
            compile,
            (&engine, bytes),
            compiled,
        ),
{
}

/// Compiles an extension with the engine of a host. `Host::register` takes the
/// outcome, so that nobody has to hold on to the host meanwhile.
pub fn compile_extension(engine: &wasmtime::Engine, bytes: &[u8]) -> (r: Result<
    wasmtime::component::Component,
    String,
>)
    ensures
        compile_outcome(*engine, bytes, r),
{
    let compiled = compile(engine, bytes);
    assert(compile_outcome(*engine, bytes, compiled));
    compiled
}

/// A function that an extension declares.
#[derive(Debug, Clone)]
pub struct ScalarFunctionEntry {
    pub id: u64,
    pub name: String,
    pub num_args: i32,
    pub deterministic: bool,
}

/// A loaded extension.
pub struct LoadedExtension {
    pub name: String,
    pub version: String,
    pub component: wasmtime::component::Component,
    pub policy: Policy,
    pub scalar_functions: Vec<ScalarFunctionEntry>,
}

/// What an extension tells of itself.
pub struct Manifest {
    pub name: String,
    pub version: String,
    pub scalar_functions: Vec<ScalarFunctionEntry>,
    pub aggregate_functions: Vec<ScalarFunctionEntry>,
    pub collations: Vec<String>,
    pub has_authorizer: bool,
    pub has_update_hook: bool,
    pub has_commit_hook: bool,
    pub declared_capabilities: Vec<Capability>,
}

/// A failure, as the loader interface shows it.
#[derive(Debug)]
pub struct LoaderError {
    pub code: i32,
    pub message: String,
}

/// A capability, as the loader interface names it.
#[derive(Debug, Clone, Copy, PartialEq, Eq, Structural)]
pub enum WitCapability {
    Spi,
    Prepared,
    Transaction,
    Schema,
    State,
    Cache,
    Random,
    Text,
    Hashing,
    Encoding,
    Http,
}

/// What outgoing HTTP traffic is held to, as the loader interface has it.
pub struct WitHttpPolicy {
    pub allowed_hosts: Vec<String>,
    pub allowed_methods: Option<Vec<String>>,
    pub max_body_bytes: Option<u64>,
    pub timeout_ms: Option<u32>,
}

/// The options that an extension is loaded with, as the loader interface has
/// them.
pub struct LoadOptions {
    pub grant: Vec<WitCapability>,
    pub http_policy: Option<WitHttpPolicy>,
    pub fuel_per_call: Option<u64>,
    pub memory_limit_bytes: Option<u64>,
    pub epoch_deadline_ms: Option<u64>,
}

/// The capability that the loader interface names `c`.
pub open spec fn capability_of(c: WitCapability) -> Capability {
    match c {
        WitCapability::Spi => Capability::Spi,
        WitCapability::Prepared => Capability::Prepared,
        WitCapability::Transaction => Capability::Transaction,
        WitCapability::Schema => Capability::Schema,
        WitCapability::State => Capability::State,
        WitCapability::Cache => Capability::Cache,
        WitCapability::Random => Capability::Random,
        WitCapability::Text => Capability::Text,
        WitCapability::Hashing => Capability::Hashing,
        WitCapability::Encoding => Capability::Encoding,
        WitCapability::Http => Capability::Http,
    }
}

/// The capability that the loader interface names `c`.
pub fn from_wit_cap(c: WitCapability) -> (r: Capability)
    ensures
        r == capability_of(c),
{
    match c {
        WitCapability::Spi => Capability::Spi,
        WitCapability::Prepared => Capability::Prepared,
        WitCapability::Transaction => Capability::Transaction,
        WitCapability::Schema => Capability::Schema,
        WitCapability::State => Capability::State,
        WitCapability::Cache => Capability::Cache,
        WitCapability::Random => Capability::Random,
        WitCapability::Text => Capability::Text,
        WitCapability::Hashing => Capability::Hashing,
        WitCapability::Encoding => Capability::Encoding,
        WitCapability::Http => Capability::Http,
    }
}

/// The upper-case form of a text, by `str::to_uppercase`.
pub uninterp spec fn uppercase(s: Seq<char>) -> Seq<char>;

/// `str::to_uppercase`. Nothing but the name of the outcome is claimed.
#[verifier::external_body]
fn to_uppercase(s: &str) -> (r: String)
    ensures
        r@ == uppercase(s@),
{
    s.to_uppercase()
}

/// The texts of `v` in upper case.
fn upper_texts(v: &Vec<String>) -> (r: Vec<String>)
    ensures
        texts(r@) == texts(v@).map_values(|s: Seq<char>| uppercase(s)),
{
    let mut r: Vec<String> = Vec::new();
    let mut i: usize = 0;
    let ghost want = texts(v@).map_values(|s: Seq<char>| uppercase(s));
    while i < v.len()
        invariant
            i <= v.len(),
            want == texts(v@).map_values(|s: Seq<char>| uppercase(s)),
            texts(r@) =~= want.take(i as int),
        decreases v.len() - i,
    {
        let upper: String = to_uppercase(v[i].as_str());
        proof {
            lemma_texts_push(r@, upper);
            assert(want.take(i + 1) =~= want.take(i as int).push(upper@));
        }
        r.push(upper);
        i = i + 1;
    }
    assert(want.take(i as int) =~= want);
    r
}

/// `r` is what `http` comes to: the methods are kept in upper case.
pub open spec fn http_policy_of(http: WitHttpPolicy, r: HttpPolicy) -> bool {
    &&& texts(r.allowed_hosts@) == texts(http.allowed_hosts@)
    &&& match http.allowed_methods {
        None => r.allowed_methods is None,
        Some(ms) => r.allowed_methods is Some && texts(r.allowed_methods->0@) == texts(
            ms@,
        ).map_values(|s: Seq<char>| uppercase(s)),
    }
    &&& r.max_body_bytes == http.max_body_bytes
    &&& r.timeout_ms == http.timeout_ms
}

/// The policy that the options of the loader interface come to.
pub fn policy_from_load_options(opts: &LoadOptions) -> (r: Policy)
    ensures
        r.grants() == opts.grant@.map_values(|c: WitCapability| capability_of(c)).to_set(),
        match opts.http_policy {
            None => r.http is None,
            Some(http) => r.http is Some && http_policy_of(http, r.http->0),
        },
        r.fuel_per_call == opts.fuel_per_call,
        r.memory_limit_bytes == opts.memory_limit_bytes,
        r.epoch_deadline_ms == opts.epoch_deadline_ms,
{
    let mut caps: Vec<Capability> = Vec::new();
    let mut i: usize = 0;
    let ghost want = opts.grant@.map_values(|c: WitCapability| capability_of(c));
    while i < opts.grant.len()
        invariant
            i <= opts.grant.len(),
            want == opts.grant@.map_values(|c: WitCapability| capability_of(c)),
            caps@ =~= want.take(i as int),
        decreases opts.grant.len() - i,
    {
        caps.push(from_wit_cap(opts.grant[i]));
        i = i + 1;
    }
    assert(want.take(i as int) =~= want);
    let mut policy = Policy::deny_all().with_grants(caps);
    assert(policy.grants() =~= want.to_set());
    match &opts.http_policy {
        Some(http) => {
            let allowed_methods: Option<Vec<String>> = match &http.allowed_methods {
                Some(ms) => Some(upper_texts(ms)),
                None => None,
            };
            policy =
            policy.with_http(
                HttpPolicy {
                    allowed_hosts: copy_texts(&http.allowed_hosts),
                    allowed_methods,
                    max_body_bytes: http.max_body_bytes,
                    timeout_ms: http.timeout_ms,
                },
            );
        },
        None => {},
    }
    match opts.fuel_per_call {
        Some(n) => {
            policy = policy.with_fuel_per_call(n);
        },
        None => {},
    }
    match opts.memory_limit_bytes {
        Some(n) => {
            policy = policy.with_memory_limit_bytes(n);
        },
        None => {},
    }
    match opts.epoch_deadline_ms {
        Some(n) => {
            policy = policy.with_epoch_deadline_ms(n);
        },
        None => {},
    }
    policy
}

/// `m` is the manifest of an extension of which nothing but its name and version
/// is known.
pub open spec fn is_stub(m: Manifest, name: Seq<char>, version: Seq<char>) -> bool {
    &&& m.name@ == name
    &&& m.version@ == version
    &&& m.scalar_functions@.len() == 0
    &&& m.aggregate_functions@.len() == 0
    &&& m.collations@.len() == 0
    &&& !m.has_authorizer
    &&& !m.has_update_hook
    &&& !m.has_commit_hook
    &&& m.declared_capabilities@.len() == 0
}

/// The manifest of a loaded extension: its name and version, and nothing else.
pub fn stub_manifest(ext: &LoadedExtension) -> (r: Manifest)
    ensures
        is_stub(r, ext.name@, ext.version@),
{
    Manifest {
        name: ext.name.clone(),
        version: ext.version.clone(),
        scalar_functions: Vec::new(),
        aggregate_functions: Vec::new(),
        collations: Vec::new(),
        has_authorizer: false,
        has_update_hook: false,
        has_commit_hook: false,
        declared_capabilities: Vec::new(),
    }
}

/// The text of an unload of an extension that is not loaded.
pub open spec fn not_loaded_text(name: Seq<char>) -> Seq<char> {
    "extension "@ + name + " not loaded"@
}

/// The text of an extension that is gone right after it was loaded.
pub open spec fn vanished_text(name: Seq<char>) -> Seq<char> {
    "internal: extension "@ + name + " vanished after load"@
}

/// The name that an extension is registered under: the stem of its file's name,
/// where that is text.
pub open spec fn extension_name(stem: Option<&str>) -> Seq<char> {
    match stem {
        Some(s) => s@,
        None => "extension"@,
    }
}

/// The engine and the extensions that are loaded, by name.
pub struct Host {
    engine: wasmtime::Engine,
    components: NameTable<LoadedExtension>,
}

impl View for Host {
    type V = Map<Seq<char>, LoadedExtension>;

    closed spec fn view(&self) -> Map<Seq<char>, LoadedExtension> {
        self.components@
    }
}

impl Host {
    /// Every extension is registered under its own name.
    pub closed spec fn wf(&self) -> bool {
        &&& self.components.wf()
        &&& forall|name: Seq<char>| #[trigger]
            self@.contains_key(name) ==> self@[name].name@ == name
    }

    /// The engine.
    pub closed spec fn spec_engine(&self) -> wasmtime::Engine {
        self.engine
    }

    /// A host without extensions, over an engine with components, fuel and
    /// epochs; an error if the engine cannot be had.
    pub fn new() -> (r: Result<Self, String>)
        ensures
            exists|made: Result<wasmtime::Engine, String>|
                {
                    &&& #[trigger] engine_outcome(host_settings(), made)
                    &&& match made {
                        Ok(engine) => {
                            &&& r is Ok
                            &&& r->Ok_0.wf()
                            &&& r->Ok_0.spec_engine() == engine
                            &&& r->Ok_0@ == Map::<Seq<char>, LoadedExtension>::empty()
                        },
                        Err(e) => r is Err && r->Err_0@ == "create wasmtime engine: "@ + e@,
                    }
                },
    {
        let made = new_engine(
            EngineSettings {
                component_model: true,
                fuel: true,
                epochs: true,
                tuning: Tuning::Speed,
            },
        );
        assert(engine_outcome(host_settings(), made));
        match made {
            Ok(engine) => Ok(Host { engine, components: NameTable::new() }),
            Err(e) => {
                let mut s = String::from_str("create wasmtime engine: ");
                s.append(e.as_str());
                Err(s)
            },
        }
    }

    /// The engine.
    pub fn engine(&self) -> (r: &wasmtime::Engine)
        ensures
            *r == self.spec_engine(),
    {
        &self.engine
    }

    /// `r` and `after` are what registering an extension comes to, by what
    /// compiling it came to.
    pub open spec fn registered(
        &self,
        path: Seq<char>,
        name: Seq<char>,
        compiled: Result<wasmtime::component::Component, String>,
        policy: Policy,
        after: Host,
        r: Result<String, String>,
    ) -> bool {
        match compiled {
            Ok(component) => {
                &&& r is Ok
                &&& r->Ok_0@ == name
                &&& after@.contains_key(name)
                &&& is_loaded_as(after@[name], name, policy)
                &&& after@[name].component == component
                &&& after@ == self@.insert(name, after@[name])
            },
            Err(e) => {
                &&& r is Err
                &&& r->Err_0@ == "compile "@ + path + ": "@ + e@
                &&& after@ == self@
            },
        }
    }

    /// Compiles the extension `bytes`, read from `path`, and registers it under
    /// the stem of its file's name.
    pub fn load_extension(&mut self, path: &str, stem: Option<&str>, bytes: &[u8], policy: Policy) -> (r:
        Result<String, String>)
        requires
            old(self).wf(),
        ensures
            final(self).wf(),
            final(self).spec_engine() == old(self).spec_engine(),
            exists|compiled: Result<wasmtime::component::Component, String>|
                {
                    &&& #[trigger] compile_outcome(old(self).spec_engine(), bytes, compiled)
                    &&& old(self).registered(
                        path@,
                        extension_name(stem),
                        compiled,
                        policy,
                        *final(self),
                        r,
                    )
                },
    {
        let compiled = compile_extension(&self.engine, bytes);
        assert(compile_outcome(self.spec_engine(), bytes, compiled));
        self.register(path, stem, compiled, policy)
    }

    /// Registers an extension by what compiling it came to.
    pub fn register(
        &mut self,
        path: &str,
        stem: Option<&str>,
        compiled: Result<wasmtime::component::Component, String>,
        policy: Policy,
    ) -> (r: Result<String, String>)
        requires
            old(self).wf(),
        ensures
            final(self).wf(),
            final(self).spec_engine() == old(self).spec_engine(),
            old(self).registered(
                path@,
                extension_name(stem),
                compiled,
                policy,
                *final(self),
                r,
            ),
    {
        match compiled {
            Ok(component) => {
                let name: String = match stem {
                    Some(s) => s.to_owned(),
                    None => String::from_str("extension"),
                };
                let ext = LoadedExtension {
                    name: name.clone(),
                    version: String::from_str("0.0.0"),
                    component,
                    policy,
                    scalar_functions: Vec::new(),
                };
                self.components.insert(name.clone(), ext);
                assert(self@ =~= old(self)@.insert(name@, self@[name@]));
                Ok(name)
            },
            Err(e) => {
                let mut s = String::from_str("compile ");
                s.append(path);
                s.append(": ");
                s.append(e.as_str());
                Err(s)
            },
        }
    }

    /// Drops the extension `name`; an error if it is not loaded.
    pub fn unload(&mut self, name: &str) -> (r: Result<(), String>)
        requires
            old(self).wf(),
        ensures
            final(self).wf(),
            final(self).spec_engine() == old(self).spec_engine(),
            final(self)@ == old(self)@.remove(name@),
            match r {
                Ok(()) => old(self)@.contains_key(name@),
                Err(e) => !old(self)@.contains_key(name@) && e@ == not_loaded_text(name@),
            },
    {
        match self.components.remove(name) {
            Some(_) => Ok(()),
            None => {
                let mut s = String::from_str("extension ");
                s.append(name);
                s.append(" not loaded");
                Err(s)
            },
        }
    }

    /// The names of the loaded extensions, each once.
    pub fn list(&self) -> (r: Vec<String>)
        requires
            self.wf(),
        ensures
            texts(r@).no_duplicates(),
            texts(r@).to_set() == self@.dom(),
    {
        let mut r: Vec<String> = Vec::new();
        let n: usize = self.components.len();
        let mut i: usize = 0;
        let ghost names = self.components.names();
        proof {
            self.components.lemma_names();
        }
        while i < n
            invariant
                self.wf(),
                names == self.components.names(),
                n == names.len(),
                i <= n,
                texts(r@) =~= names.take(i as int),
            decreases n - i,
        {
            let name: String = self.components.name_at(i).to_owned();
            proof {
                lemma_texts_push(r@, name);
                assert(names.take(i + 1) =~= names.take(i as int).push(name@));
            }
            r.push(name);
            i = i + 1;
        }
        assert(names.take(i as int) =~= names);
        r
    }

    /// Whether the extension `name` is loaded.
    pub fn is_loaded(&self, name: &str) -> (r: bool)
        requires
            self.wf(),
        ensures
            r == self@.contains_key(name@),
    {
        self.components.contains(name)
    }

    /// The loader interface's answer to a load, by what the load came to.
    pub fn load_reply(&self, loaded: Result<String, String>) -> (r: Result<Manifest, LoaderError>)
        requires
            self.wf(),
        ensures
            match loaded {
                Ok(name) => if self@.contains_key(name@) {
                    r is Ok && is_stub(r->Ok_0, name@, self@[name@].version@)
                } else {
                    r is Err && r->Err_0.code == LOADER_ERROR && r->Err_0.message@
                        == vanished_text(name@)
                },
                Err(e) => r is Err && r->Err_0.code == LOADER_ERROR && r->Err_0.message@ == e@,
            },
    {
        match loaded {
            Ok(name) => match self.components.get(name.as_str()) {
                Some(ext) => {
                    assert(self@.contains_key(name@));
                    Ok(stub_manifest(ext))
                },
                None => {
                    let mut s = String::from_str("internal: extension ");
                    s.append(name.as_str());
                    s.append(" vanished after load");
                    Err(LoaderError { code: LOADER_ERROR, message: s })
                },
            },
            Err(e) => Err(LoaderError { code: LOADER_ERROR, message: e }),
        }
    }

    /// The loader interface's unload.
    pub fn unload_extension(&mut self, name: &str) -> (r: Result<(), LoaderError>)
        requires
            old(self).wf(),
        ensures
            final(self).wf(),
            final(self)@ == old(self)@.remove(name@),
            match r {
                Ok(()) => old(self)@.contains_key(name@),
                Err(e) => {
                    &&& !old(self)@.contains_key(name@)
                    &&& e.code == LOADER_ERROR
                    &&& e.message@ == not_loaded_text(name@)
                },
            },
    {
        match self.unload(name) {
            Ok(()) => Ok(()),
            Err(message) => Err(LoaderError { code: LOADER_ERROR, message }),
        }
    }

    /// The loader interface's list: a manifest for each loaded extension.
    pub fn list_extensions(&self) -> (r: Vec<Manifest>)
        requires
            self.wf(),
        ensures
            manifest_names(r@).no_duplicates(),
            manifest_names(r@).to_set() == self@.dom(),
            forall|i: int|
                0 <= i < r@.len() ==> is_stub(
                    #[trigger] r@[i],
                    r@[i].name@,
                    self@[r@[i].name@].version@,
                ),
    {
        let mut r: Vec<Manifest> = Vec::new();
        let n: usize = self.components.len();
        let mut i: usize = 0;
        let ghost names = self.components.names();
        proof {
            self.components.lemma_names();
        }
        while i < n
            invariant
                self.wf(),
                names == self.components.names(),
                n == names.len(),
                i <= n,
                manifest_names(r@) =~= names.take(i as int),
                forall|j: int|
                    0 <= j < r@.len() ==> is_stub(
                        #[trigger] r@[j],
                        r@[j].name@,
                        self@[r@[j].name@].version@,
                    ),
            decreases n - i,
        {
            let ext: &LoadedExtension = self.components.value_at(i);
            assert(self@.contains_key(names[i as int]));
            let ghost before = r@;
            let m: Manifest = stub_manifest(ext);
            r.push(m);
            proof {
                assert(manifest_names(r@) =~= manifest_names(before).push(m.name@));
                assert(names.take(i + 1) =~= names.take(i as int).push(m.name@));
            }
            i = i + 1;
        }
        assert(names.take(i as int) =~= names);
        r
    }
}

/// `ext` is an extension fresh from loading it as `name`.
pub open spec fn is_loaded_as(ext: LoadedExtension, name: Seq<char>, policy: Policy) -> bool {
    &&& ext.name@ == name
    &&& ext.version@ == "0.0.0"@
    &&& ext.policy == policy
    &&& ext.scalar_functions@.len() == 0
}

/// The names in `manifests`.
pub open spec fn manifest_names(manifests: Seq<Manifest>) -> Seq<Seq<char>> {
    manifests.map_values(|m: Manifest| m.name@)
}

/// What is unloaded is not loaded any more, and everything else still is.
pub proof fn lemma_unload_undoes_load(
    before: Map<Seq<char>, LoadedExtension>,
    name: Seq<char>,
    ext: LoadedExtension,
)
    requires
        !before.contains_key(name),
    ensures
        before.insert(name, ext).remove(name) == before,
{
    assert(before.insert(name, ext).remove(name) =~= before);
}

} // verus!
