//! The patch aggregate: modules with bounded parameters, connections between
//! module ports, and the builder that assembles them.
use vstd::prelude::*;

use crate::binary64::{
    clamp, clamp_spec, is_nan, le_spec, lt, lt_spec, EIGHT_TENTHS, ONE_HUNDREDTH, FIVE, FOUR_HUNDRED_FORTY, ONE,
    ONE_HALF, ONE_THOUSAND, ONE_THOUSANDTH, ONE_TENTH, SEVEN_TENTHS, TEN, THREE_TENTHS, TWENTY,
    TWENTY_THOUSAND, ZERO,
};
use crate::search::{first_index, lemma_first_index, lemma_first_index_is};
use crate::text::{ascii_lowercase, find_char, lowercase, owned, str_eq, to_lowercase};
use vstd::string::*;

verus! {

// ── Abstract views ───────────────────────────────────────────────

/// What a parameter is: its name and its value within `[min, max]`
/// (values are binary64 bit patterns).
pub struct ParamView {
    pub name: Seq<char>,
    pub value: u64,
    pub min: u64,
    pub max: u64,
}

/// A port: the module it belongs to and its name.
pub struct PortView {
    pub module_id: Seq<char>,
    pub port_name: Seq<char>,
}

/// A module: its id, its kind and its parameters in order.
pub struct ModuleView {
    pub id: Seq<char>,
    pub kind: ModuleKind,
    pub params: Seq<ParamView>,
}

/// A connection from one port to another.
pub struct ConnectionView {
    pub from: PortView,
    pub to: PortView,
}

/// A patch: its modules and its connections, in the order they were added.
pub struct PatchView {
    pub modules: Seq<ModuleView>,
    pub connections: Seq<ConnectionView>,
}

/// The errors of the patch model, with their texts as character sequences.
pub enum PatchErrorView {
    ModuleNotFound(Seq<char>),
    ParamNotFound { module_id: Seq<char>, param_name: Seq<char> },
    ParamOutOfRange { name: Seq<char>, min: u64, max: u64, got: u64 },
    InvalidPortId(Seq<char>),
    UnknownModuleKind(Seq<char>),
    ValidationFailed(Seq<Seq<char>>),
}

// ── Value Objects ────────────────────────────────────────────────

/// A named parameter with its bounds. `value`, `min` and `max` are the bit
/// patterns of binary64 numbers.
#[derive(Clone, Debug, PartialEq)]
pub struct ParamValue {
    pub name: String,
    pub value: u64,
    pub min: u64,
    pub max: u64,
}

impl View for ParamValue {
    type V = ParamView;

    open spec fn view(&self) -> ParamView {
        ParamView { name: self.name@, value: self.value, min: self.min, max: self.max }
    }
}

/// Whether `v` lies outside the bounds of `p`.
pub open spec fn out_of_range(p: ParamView, v: u64) -> bool {
    lt_spec(v, p.min) || lt_spec(p.max, v)
}

/// Setting a parameter: refused outside its bounds, else the value replaced.
pub open spec fn param_set(p: ParamView, v: u64) -> Result<ParamView, PatchErrorView> {
    if out_of_range(p, v) {
        Err(PatchErrorView::ParamOutOfRange { name: p.name, min: p.min, max: p.max, got: v })
    } else {
        Ok(ParamView { value: v, ..p })
    }
}

/// The value of a parameter lies within its bounds.
pub open spec fn in_bounds(p: ParamView) -> bool {
    le_spec(p.min, p.value) && le_spec(p.value, p.max)
}

/// A parameter made from a number (not a NaN) lies within its bounds, and
/// setting one to a number either is refused or keeps it within its bounds.
pub proof fn lemma_params_stay_bounded(name: Seq<char>, value: u64, min: u64, max: u64, p: ParamView, v: u64)
    requires
        le_spec(min, max),
        le_spec(p.min, p.max),
        !is_nan(value),
        !is_nan(v),
    ensures
        in_bounds(ParamView { name, value: clamp_spec(value, min, max), min, max }),
        param_set(p, v) matches Ok(q) ==> le_spec(q.min, q.value) && le_spec(q.value, q.max),
{
    crate::binary64::lemma_clamp_in_range(value, min, max);
}

/// Setting a parameter is refused exactly when the value is below its
/// minimum or above its maximum (a NaN is neither), and otherwise stores the
/// value as it is.
pub proof fn lemma_param_set_bounds(p: ParamView, v: u64)
    ensures
        param_set(p, v) is Ok <==> !lt_spec(v, p.min) && !lt_spec(p.max, v),
        !lt_spec(v, p.min) && !lt_spec(p.max, v) ==> param_set(p, v) == Ok::<
            ParamView,
            PatchErrorView,
        >(ParamView { value: v, ..p }),
        le_spec(p.min, v) && le_spec(v, p.max) ==> param_set(p, v) == Ok::<
            ParamView,
            PatchErrorView,
        >(ParamView { value: v, ..p }),
{
}

/// Setting a parameter of a patch through its path `module.param`: when the
/// module and the parameter are found, the setting succeeds exactly when the
/// value is neither below the parameter's minimum nor above its maximum, and
/// then only that parameter's value changes, to the value given.
pub proof fn lemma_patch_set_param_bounds(p: PatchView, path: Seq<char>, v: u64)
    requires
        parse_port(path) is Ok,
        first_index(module_ids(p.modules), parse_port(path)->Ok_0.module_id) is Some,
        first_index(
            param_names(
                p.modules[first_index(
                    module_ids(p.modules),
                    parse_port(path)->Ok_0.module_id,
                )->Some_0].params,
            ),
            parse_port(path)->Ok_0.port_name,
        ) is Some,
    ensures
        ({
            let port = parse_port(path)->Ok_0;
            let i = first_index(module_ids(p.modules), port.module_id)->Some_0;
            let m = p.modules[i];
            let j = first_index(param_names(m.params), port.port_name)->Some_0;
            let q = m.params[j];
            &&& patch_set_param(p, path, v) is Ok <==> !lt_spec(v, q.min) && !lt_spec(q.max, v)
            &&& patch_set_param(p, path, v) is Ok ==> patch_set_param(p, path, v)->Ok_0 == (
            PatchView {
                modules: p.modules.update(
                    i,
                    ModuleView { params: m.params.update(j, ParamView { value: v, ..q }), ..m },
                ),
                ..p
            })
        }),
{
}

impl ParamValue {
    /// A parameter whose value is `value` clamped into `[min, max]`.
    pub fn new(name: &str, value: u64, min: u64, max: u64) -> (r: Self)
        requires
            le_spec(min, max),
        ensures
            r@ == (ParamView { name: name@, value: clamp_spec(value, min, max), min, max }),
    {
        ParamValue { name: owned(name), value: clamp(value, min, max), min, max }
    }

    /// Sets the value; refused, with the value unchanged, outside the bounds.
    pub fn set(&mut self, value: u64) -> (r: Result<(), PatchError>)
        ensures
            match param_set(old(self)@, value) {
                Ok(p) => r is Ok && final(self)@ == p,
                Err(e) => r matches Err(err) && err@ == e && final(self)@ == old(self)@,
            },
    {
        if lt(value, self.min) || lt(self.max, value) {
            return Err(
                PatchError::ParamOutOfRange {
                    name: self.name.clone(),
                    min: self.min,
                    max: self.max,
                    got: value,
                },
            );
        }
        self.value = value;
        Ok(())
    }
}

/// A port of a module, written `module.port` in paths.
#[derive(Clone, Debug, PartialEq)]
pub struct PortId {
    pub module_id: String,
    pub port_name: String,
}

impl View for PortId {
    type V = PortView;

    open spec fn view(&self) -> PortView {
        PortView { module_id: self.module_id@, port_name: self.port_name@ }
    }
}

/// Reading `module.port`: split at the first `.`; a text without one is
/// refused.
pub open spec fn parse_port(s: Seq<char>) -> Result<PortView, PatchErrorView> {
    match first_index(s, '.') {
        Some(i) => Ok(PortView { module_id: s.take(i), port_name: s.skip(i + 1) }),
        None => Err(PatchErrorView::InvalidPortId(s)),
    }
}

impl PortId {
    pub fn new(module_id: &str, port_name: &str) -> (r: Self)
        ensures
            r@ == (PortView { module_id: module_id@, port_name: port_name@ }),
    {
        PortId { module_id: owned(module_id), port_name: owned(port_name) }
    }

    /// Parses `module.port`, splitting at the first `.`.
    pub fn parse(s: &str) -> (r: Result<Self, PatchError>)
        ensures
            match parse_port(s@) {
                Ok(p) => r matches Ok(q) && q@ == p,
                Err(e) => r matches Err(err) && err@ == e,
            },
    {
        proof {
            lemma_first_index(s@, '.');
        }
        match find_char(s, '.') {
            None => Err(PatchError::InvalidPortId(owned(s))),
            Some(i) => {
                proof {
                    lemma_first_index_is(s@, '.', i as int);
                }
                let n = s.unicode_len();
                let head = s.substring_char(0, i);
                let tail = s.substring_char(i + 1, n);
                assert(head@ =~= s@.take(i as int));
                assert(tail@ =~= s@.skip(i + 1));
                Ok(PortId::new(head, tail))
            },
        }
    }
}

/// Splitting at the first `.` loses nothing: head, dot and tail give back
/// the text, and the head holds no dot.
pub proof fn lemma_parse_port_splits(s: Seq<char>)
    ensures
        parse_port(s) matches Ok(p) ==> {
            &&& s == p.module_id + seq!['.'] + p.port_name
            &&& !p.module_id.contains('.')
        },
        parse_port(s) is Err <==> !s.contains('.'),
{
    lemma_first_index(s, '.');
    if let Some(i) = first_index(s, '.') {
        assert(s =~= s.take(i) + seq!['.'] + s.skip(i + 1));
        if s.take(i).contains('.') {
            let k = choose|k: int| 0 <= k < s.take(i).len() && s.take(i)[k] == '.';
            assert(s[k] == '.');
        }
    }
}

// ── Enums ────────────────────────────────────────────────────────

#[derive(Clone, Copy, Debug, PartialEq, Eq, Structural)]
pub enum ModuleKind {
    Oscillator,
    Filter,
    Envelope,
    Output,
    Mixer,
}

/// The kind named by a lower-case name.
pub open spec fn kind_named(name: Seq<char>) -> Option<ModuleKind> {
    if name == "oscillator"@ {
        Some(ModuleKind::Oscillator)
    } else if name == "filter"@ {
        Some(ModuleKind::Filter)
    } else if name == "envelope"@ {
        Some(ModuleKind::Envelope)
    } else if name == "output"@ {
        Some(ModuleKind::Output)
    } else if name == "mixer"@ {
        Some(ModuleKind::Mixer)
    } else {
        None
    }
}

/// Reading a kind: its name is compared in lower case.
pub open spec fn parse_kind(s: Seq<char>) -> Result<ModuleKind, PatchErrorView> {
    match kind_named(lowercase(s)) {
        Some(k) => Ok(k),
        None => Err(PatchErrorView::UnknownModuleKind(s)),
    }
}

/// The parameter view of a default parameter (all defaults lie in range).
pub open spec fn param(name: Seq<char>, value: u64, min: u64, max: u64) -> ParamView {
    ParamView { name, value, min, max }
}

/// The parameters that a new module of each kind starts with.
pub open spec fn default_param_table(kind: ModuleKind) -> Seq<ParamView> {
    match kind {
        ModuleKind::Oscillator => seq![
            param("frequency"@, FOUR_HUNDRED_FORTY, TWENTY, TWENTY_THOUSAND),
            param("gain"@, EIGHT_TENTHS, ZERO, ONE),
        ],
        ModuleKind::Filter => seq![
            param("cutoff"@, ONE_THOUSAND, TWENTY, TWENTY_THOUSAND),
            param("resonance"@, ONE_HALF, ZERO, ONE),
        ],
        ModuleKind::Envelope => seq![
            param("attack"@, ONE_HUNDREDTH, ONE_THOUSANDTH, FIVE),
            param("decay"@, ONE_TENTH, ONE_THOUSANDTH, FIVE),
            param("sustain"@, SEVEN_TENTHS, ZERO, ONE),
            param("release"@, THREE_TENTHS, ONE_THOUSANDTH, TEN),
        ],
        ModuleKind::Output => seq![param("gain"@, EIGHT_TENTHS, ZERO, ONE)],
        ModuleKind::Mixer => seq![param("gain"@, ONE_HALF, ZERO, ONE)],
    }
}

impl ModuleKind {
    /// The kind named by `s`, compared in lower case.
    pub fn from_str(s: &str) -> (r: Result<Self, PatchError>)
        ensures
            match parse_kind(s@) {
                Ok(k) => r == Ok::<ModuleKind, PatchError>(k),
                Err(e) => r matches Err(err) && err@ == e,
            },
            vstd::utf8::is_ascii_chars(s@) ==> match kind_named(ascii_lowercase(s@)) {
                Some(k) => r == Ok::<ModuleKind, PatchError>(k),
                None => r matches Err(err) && err@ == PatchErrorView::UnknownModuleKind(s@),
            },
    {
        let lower = to_lowercase(s);
        match Self::from_lowercase(lower.as_str()) {
            Some(k) => Ok(k),
            None => Err(PatchError::UnknownModuleKind(owned(s))),
        }
    }

    /// The kind named by an already lower-cased name.
    pub fn from_lowercase(name: &str) -> (r: Option<Self>)
        ensures
            r == kind_named(name@),
    {
        proof {
            reveal_strlit("oscillator");
            reveal_strlit("filter");
            reveal_strlit("envelope");
            reveal_strlit("output");
            reveal_strlit("mixer");
        }
        if str_eq(name, "oscillator") {
            Some(ModuleKind::Oscillator)
        } else if str_eq(name, "filter") {
            Some(ModuleKind::Filter)
        } else if str_eq(name, "envelope") {
            Some(ModuleKind::Envelope)
        } else if str_eq(name, "output") {
            Some(ModuleKind::Output)
        } else if str_eq(name, "mixer") {
            Some(ModuleKind::Mixer)
        } else {
            None
        }
    }

    /// The parameters a new module of this kind starts with.
    pub fn default_params(&self) -> (r: Vec<ParamValue>)
        ensures
            r@.map_values(|p: ParamValue| p@) == default_param_table(*self),
    {
        let mut v: Vec<ParamValue> = Vec::new();
        match self {
            ModuleKind::Oscillator => {
                v.push(ParamValue::new("frequency", FOUR_HUNDRED_FORTY, TWENTY, TWENTY_THOUSAND));
                v.push(ParamValue::new("gain", EIGHT_TENTHS, ZERO, ONE));
            },
            ModuleKind::Filter => {
                v.push(ParamValue::new("cutoff", ONE_THOUSAND, TWENTY, TWENTY_THOUSAND));
                v.push(ParamValue::new("resonance", ONE_HALF, ZERO, ONE));
            },
            ModuleKind::Envelope => {
                v.push(ParamValue::new("attack", ONE_HUNDREDTH, ONE_THOUSANDTH, FIVE));
                v.push(ParamValue::new("decay", ONE_TENTH, ONE_THOUSANDTH, FIVE));
                v.push(ParamValue::new("sustain", SEVEN_TENTHS, ZERO, ONE));
                v.push(ParamValue::new("release", THREE_TENTHS, ONE_THOUSANDTH, TEN));
            },
            ModuleKind::Output => {
                v.push(ParamValue::new("gain", EIGHT_TENTHS, ZERO, ONE));
            },
            ModuleKind::Mixer => {
                v.push(ParamValue::new("gain", ONE_HALF, ZERO, ONE));
            },
        }
        assert(v@.map_values(|p: ParamValue| p@) =~= default_param_table(*self));
        v
    }
}


// ── Entities ─────────────────────────────────────────────────────

/// The names of parameters, in order.
pub open spec fn param_names(ps: Seq<ParamView>) -> Seq<Seq<char>> {
    ps.map_values(|p: ParamView| p.name)
}

/// Setting the parameter `name` of a module: the first parameter of that
/// name is set; an unknown name is refused.
pub open spec fn module_set_param(m: ModuleView, name: Seq<char>, v: u64) -> Result<
    ModuleView,
    PatchErrorView,
> {
    match first_index(param_names(m.params), name) {
        None => Err(PatchErrorView::ParamNotFound { module_id: m.id, param_name: name }),
        Some(i) => match param_set(m.params[i], v) {
            Ok(p) => Ok(ModuleView { params: m.params.update(i, p), ..m }),
            Err(e) => Err(e),
        },
    }
}

/// `o` as an optional mathematical integer.
pub open spec fn opt_int(o: Option<usize>) -> Option<int> {
    match o {
        Some(i) => Some(i as int),
        None => None,
    }
}

#[derive(Clone, Debug)]
pub struct Module {
    pub id: String,
    pub kind: ModuleKind,
    pub params: Vec<ParamValue>,
}

impl View for Module {
    type V = ModuleView;

    open spec fn view(&self) -> ModuleView {
        ModuleView {
            id: self.id@,
            kind: self.kind,
            params: self.params@.map_values(|p: ParamValue| p@),
        }
    }
}

impl Module {
    /// A module of the given kind with its default parameters.
    pub fn new(id: &str, kind: ModuleKind) -> (r: Self)
        ensures
            r@ == (ModuleView { id: id@, kind, params: default_param_table(kind) }),
    {
        let params = kind.default_params();
        Module { id: owned(id), kind, params }
    }

    /// A module with the given parameters.
    pub fn with_params(id: &str, kind: ModuleKind, params: Vec<ParamValue>) -> (r: Self)
        ensures
            r@ == (ModuleView { id: id@, kind, params: params@.map_values(|p: ParamValue| p@) }),
    {
        Module { id: owned(id), kind, params }
    }

    /// The position of the first parameter called `name`.
    fn find_param(&self, name: &str) -> (r: Option<usize>)
        ensures
            opt_int(r) == first_index(param_names(self@.params), name@),
            r matches Some(i) ==> i < self@.params.len(),
    {
        let ghost names = param_names(self@.params);
        let mut i: usize = 0;
        while i < self.params.len()
            invariant
                names == param_names(self@.params),
                names.len() == self.params@.len(),
                i <= self.params@.len(),
                forall|j: int| 0 <= j < i ==> names[j] != name@,
            decreases self.params@.len() - i,
        {
            if str_eq(self.params[i].name.as_str(), name) {
                proof {
                    lemma_first_index_is(names, name@, i as int);
                }
                return Some(i);
            }
            i = i + 1;
        }
        proof {
            lemma_first_index(names, name@);
        }
        None
    }

    /// The first parameter called `name`.
    pub fn get_param(&self, name: &str) -> (r: Option<&ParamValue>)
        ensures
            match first_index(param_names(self@.params), name@) {
                None => r is None,
                Some(i) => r matches Some(p) && p@ == self@.params[i],
            },
    {
        match self.find_param(name) {
            None => None,
            Some(i) => Some(&self.params[i]),
        }
    }

    /// Sets the first parameter called `name`; unknown names and values out
    /// of bounds are refused and leave the module unchanged.
    pub fn set_param(&mut self, name: &str, value: u64) -> (r: Result<(), PatchError>)
        ensures
            match module_set_param(old(self)@, name@, value) {
                Ok(m) => r is Ok && final(self)@ == m,
                Err(e) => r matches Err(err) && err@ == e && final(self)@ == old(self)@,
            },
    {
        match self.find_param(name) {
            None => Err(
                PatchError::ParamNotFound { module_id: self.id.clone(), param_name: owned(name) },
            ),
            Some(i) => {
                proof {
                    lemma_first_index(param_names(self@.params), name@);
                }
                let r = self.params[i].set(value);
                assert(self@.params =~= old(self)@.params.update(i as int, self.params@[i as int]@));
                if r.is_err() {
                    assert(self@.params =~= old(self)@.params);
                }
                r
            },
        }
    }
}

#[derive(Clone, Debug)]
pub struct Connection {
    pub from: PortId,
    pub to: PortId,
}

impl View for Connection {
    type V = ConnectionView;

    open spec fn view(&self) -> ConnectionView {
        ConnectionView { from: self.from@, to: self.to@ }
    }
}

impl Connection {
    pub fn new(from: PortId, to: PortId) -> (r: Self)
        ensures
            r@ == (ConnectionView { from: from@, to: to@ }),
    {
        Connection { from, to }
    }
}

// ── Aggregate Root : Patch ───────────────────────────────────────

/// The ids of modules, in order.
pub open spec fn module_ids(ms: Seq<ModuleView>) -> Seq<Seq<char>> {
    ms.map_values(|m: ModuleView| m.id)
}

/// The ids of the modules that connections start from, in order.
pub open spec fn source_ids(cs: Seq<ConnectionView>) -> Seq<Seq<char>> {
    cs.map_values(|c: ConnectionView| c.from.module_id)
}

/// Setting `module.param` in a patch: the path is read as a port, the first
/// module with that id has its parameter set.
pub open spec fn patch_set_param(p: PatchView, path: Seq<char>, v: u64) -> Result<
    PatchView,
    PatchErrorView,
> {
    match parse_port(path) {
        Err(e) => Err(e),
        Ok(port) => match first_index(module_ids(p.modules), port.module_id) {
            None => Err(PatchErrorView::ModuleNotFound(port.module_id)),
            Some(i) => match module_set_param(p.modules[i], port.port_name, v) {
                Ok(m) => Ok(PatchView { modules: p.modules.update(i, m), ..p }),
                Err(e) => Err(e),
            },
        },
    }
}

/// The ids that connections from the module `a` lead to, in connection order.
pub open spec fn targets_from(cs: Seq<ConnectionView>, a: Seq<char>) -> Seq<Seq<char>>
    decreases cs.len(),
{
    if cs.len() == 0 {
        seq![]
    } else if cs.last().from.module_id == a {
        targets_from(cs.drop_last(), a).push(cs.last().to.module_id)
    } else {
        targets_from(cs.drop_last(), a)
    }
}

/// After a parameter was set through its path, looking it up by the same
/// path finds the new value: the first module with that id has, as its first
/// parameter of that name, the value set.
pub proof fn lemma_set_then_get(p: PatchView, path: Seq<char>, v: u64)
    requires
        patch_set_param(p, path, v) is Ok,
    ensures
        ({
            let q = patch_set_param(p, path, v)->Ok_0;
            let port = parse_port(path)->Ok_0;
            let i = first_index(module_ids(q.modules), port.module_id)->Some_0;
            let m = q.modules[i];
            let j = first_index(param_names(m.params), port.port_name)->Some_0;
            &&& first_index(module_ids(q.modules), port.module_id) is Some
            &&& first_index(param_names(m.params), port.port_name) is Some
            &&& m.params[j].value == v
        }),
{
    let port = parse_port(path)->Ok_0;
    let i = first_index(module_ids(p.modules), port.module_id)->Some_0;
    let m = p.modules[i];
    let j = first_index(param_names(m.params), port.port_name)->Some_0;
    let m2 = module_set_param(m, port.port_name, v)->Ok_0;
    let q = patch_set_param(p, path, v)->Ok_0;
    lemma_first_index(module_ids(p.modules), port.module_id);
    lemma_first_index(param_names(m.params), port.port_name);
    assert(module_ids(q.modules) =~= module_ids(p.modules));
    assert(param_names(m2.params) =~= param_names(m.params));
    assert(q.modules[i] == m2);
}

/// The nodes of the patch graph: module ids and the ids connections start
/// from.
pub open spec fn is_node(p: PatchView, k: Seq<char>) -> bool {
    module_ids(p.modules).contains(k) || source_ids(p.connections).contains(k)
}

/// The keys of an adjacency list.
pub open spec fn adjacency_keys(adj: Seq<(String, Vec<String>)>) -> Seq<Seq<char>> {
    adj.map_values(|e: (String, Vec<String>)| e.0@)
}

/// The targets listed for each key of an adjacency list.
pub open spec fn adjacency_targets(adj: Seq<(String, Vec<String>)>, i: int) -> Seq<Seq<char>> {
    adj[i].1@.map_values(|s: String| s@)
}

/// `adj` lists each node of the patch graph once, with the targets of its
/// connections in connection order.
pub open spec fn is_adjacency_of(adj: Seq<(String, Vec<String>)>, p: PatchView) -> bool {
    let keys = adjacency_keys(adj);
    &&& forall|i: int, j: int| 0 <= i < j < keys.len() ==> keys[i] != keys[j]
    &&& forall|k: Seq<char>| keys.contains(k) <==> is_node(p, k)
    &&& forall|i: int|
        0 <= i < keys.len() ==> adjacency_targets(adj, i) == targets_from(p.connections, keys[i])
}

#[derive(Clone, Debug)]
pub struct Patch {
    modules: Vec<Module>,
    connections: Vec<Connection>,
}

/// The views of a sequence of modules.
pub open spec fn module_views(ms: Seq<Module>) -> Seq<ModuleView> {
    ms.map_values(|x: Module| x@)
}

/// Replacing one module replaces its view.
pub broadcast proof fn lemma_module_views_update(ms: Seq<Module>, i: int, m: Module)
    requires
        0 <= i < ms.len(),
    ensures
        #[trigger] module_views(ms.update(i, m)) == module_views(ms).update(i, m@),
{
    assert(module_views(ms.update(i, m)) =~= module_views(ms).update(i, m@));
}

impl View for Patch {
    type V = PatchView;

    closed spec fn view(&self) -> PatchView {
        PatchView {
            modules: module_views(self.modules@),
            connections: self.connections@.map_values(|c: Connection| c@),
        }
    }
}

impl Patch {
    pub fn modules(&self) -> (r: &[Module])
        ensures
            r@.map_values(|m: Module| m@) == self@.modules,
    {
        self.modules.as_slice()
    }

    pub fn connections(&self) -> (r: &[Connection])
        ensures
            r@.map_values(|c: Connection| c@) == self@.connections,
    {
        self.connections.as_slice()
    }

    /// The position of the first module with id `id`.
    fn module_index(&self, id: &str) -> (r: Option<usize>)
        ensures
            opt_int(r) == first_index(module_ids(self@.modules), id@),
            r matches Some(i) ==> i < self@.modules.len(),
    {
        let ghost ids = module_ids(self@.modules);
        let mut i: usize = 0;
        while i < self.modules.len()
            invariant
                ids == module_ids(self@.modules),
                ids.len() == self.modules@.len(),
                self@.modules.len() == self.modules@.len(),
                i <= self.modules@.len(),
                forall|j: int| 0 <= j < i ==> ids[j] != id@,
            decreases self.modules@.len() - i,
        {
            if str_eq(self.modules[i].id.as_str(), id) {
                proof {
                    lemma_first_index_is(ids, id@, i as int);
                }
                return Some(i);
            }
            i = i + 1;
        }
        proof {
            lemma_first_index(ids, id@);
        }
        None
    }

    /// The first module with id `id`.
    pub fn find_module(&self, id: &str) -> (r: Option<&Module>)
        ensures
            match first_index(module_ids(self@.modules), id@) {
                None => r is None,
                Some(i) => r matches Some(m) && m@ == self@.modules[i],
            },
    {
        match self.module_index(id) {
            None => None,
            Some(i) => Some(&self.modules[i]),
        }
    }

    /// The first module with id `id`, to be changed in place.
    pub fn find_module_mut(&mut self, id: &str) -> (r: Option<&mut Module>)
        ensures
            match first_index(module_ids(old(self)@.modules), id@) {
                None => r is None && final(self)@ == old(self)@,
                Some(i) => r matches Some(m) && (*m)@ == old(self)@.modules[i] && final(self)@
                    == (PatchView {
                    modules: old(self)@.modules.update(i, (*final(m))@),
                    ..old(self)@
                }),
            },
    {
        broadcast use lemma_module_views_update;

        match self.module_index(id) {
            None => None,
            Some(i) => Some(&mut self.modules[i]),
        }
    }

    /// Sets `module.param` to `value`; a malformed path, an unknown module or
    /// parameter, or a value out of bounds is refused and changes nothing.
    pub fn set_param(&mut self, path: &str, value: u64) -> (r: Result<(), PatchError>)
        ensures
            match patch_set_param(old(self)@, path@, value) {
                Ok(p) => r is Ok && final(self)@ == p,
                Err(e) => r matches Err(err) && err@ == e && final(self)@ == old(self)@,
            },
    {
        let port = match PortId::parse(path) {
            Ok(port) => port,
            Err(e) => return Err(e),
        };
        match self.module_index(port.module_id.as_str()) {
            None => Err(PatchError::ModuleNotFound(port.module_id.clone())),
            Some(i) => {
                proof {
                    lemma_first_index(module_ids(self@.modules), port.module_id@);
                }
                let r = self.modules[i].set_param(port.port_name.as_str(), value);
                assert(self@.modules =~= old(self)@.modules.update(
                    i as int,
                    self.modules@[i as int]@,
                ));
                if r.is_err() {
                    assert(self@.modules =~= old(self)@.modules);
                }
                r
            },
        }
    }

    /// The ids of the modules, in order.
    pub fn module_ids(&self) -> (r: Vec<&str>)
        ensures
            r@.map_values(|s: &str| s@) == module_ids(self@.modules),
    {
        let mut r: Vec<&str> = Vec::new();
        let mut i: usize = 0;
        while i < self.modules.len()
            invariant
                i <= self.modules@.len(),
                self@.modules.len() == self.modules@.len(),
                r@.map_values(|s: &str| s@) =~= module_ids(self@.modules).take(i as int),
            decreases self.modules@.len() - i,
        {
            r.push(self.modules[i].id.as_str());
            assert(module_ids(self@.modules).take(i + 1) =~= module_ids(self@.modules).take(
                i as int,
            ).push(self.modules@[i as int].id@));
            i = i + 1;
        }
        assert(module_ids(self@.modules).take(i as int) =~= module_ids(self@.modules));
        r
    }
}

/// The position of the entry keyed `k` in an adjacency list under
/// construction.
pub(crate) fn key_index(adj: &Vec<(String, Vec<String>)>, k: &str) -> (r: Option<usize>)
    ensures
        match r {
            Some(i) => i < adj@.len() && adjacency_keys(adj@)[i as int] == k@,
            None => !adjacency_keys(adj@).contains(k@),
        },
{
    let ghost keys = adjacency_keys(adj@);
    let mut i: usize = 0;
    while i < adj.len()
        invariant
            keys == adjacency_keys(adj@),
            keys.len() == adj@.len(),
            i <= adj@.len(),
            forall|j: int| 0 <= j < i ==> keys[j] != k@,
        decreases adj@.len() - i,
    {
        if str_eq(adj[i].0.as_str(), k) {
            return Some(i);
        }
        i = i + 1;
    }
    None
}

/// Taking one more connection into account extends the targets of its
/// source by its target and leaves the other lists as they were.
proof fn lemma_targets_from_step(cs: Seq<ConnectionView>, n: int, a: Seq<char>)
    requires
        0 <= n < cs.len(),
    ensures
        targets_from(cs.take(n + 1), a) == if cs[n].from.module_id == a {
            targets_from(cs.take(n), a).push(cs[n].to.module_id)
        } else {
            targets_from(cs.take(n), a)
        },
{
    assert(cs.take(n + 1).drop_last() =~= cs.take(n));
}

impl Patch {
    /// For each node of the patch graph (module ids and connection sources),
    /// the ids its connections lead to. Each node is listed once; the order of
    /// the nodes carries no meaning.
    pub fn adjacency(&self) -> (r: Vec<(String, Vec<String>)>)
        ensures
            is_adjacency_of(r@, self@),
    {
        let ghost p = self@;
        let mut adj: Vec<(String, Vec<String>)> = Vec::new();
        let mut i: usize = 0;
        while i < self.modules.len()
            invariant
                p == self@,
                i <= self.modules@.len(),
                p.modules.len() == self.modules@.len(),
                forall|a: int, b: int|
                    0 <= a < b < adj@.len() ==> adjacency_keys(adj@)[a] != adjacency_keys(adj@)[b],
                forall|k: Seq<char>|
                    adjacency_keys(adj@).contains(k) <==> module_ids(p.modules).take(
                        i as int,
                    ).contains(k),
                forall|a: int| 0 <= a < adj@.len() ==> adjacency_targets(adj@, a).len() == 0,
            decreases self.modules@.len() - i,
        {
            let ghost before = adj@;
            let ghost ids_next = module_ids(p.modules).take(i + 1);
            assert(ids_next =~= module_ids(p.modules).take(i as int).push(p.modules[i as int].id));
            match key_index(&adj, self.modules[i].id.as_str()) {
                Some(idx) => {
                    assert forall|k: Seq<char>|
                        adjacency_keys(adj@).contains(k) <==> ids_next.contains(k) by {
                        if ids_next.contains(k) && k != p.modules[i as int].id {
                            let j = choose|j: int| 0 <= j < ids_next.len() && ids_next[j] == k;
                            assert(module_ids(p.modules).take(i as int)[j] == k);
                        }
                        if k == p.modules[i as int].id {
                            assert(adjacency_keys(adj@)[idx as int] == k);
                            assert(ids_next[i as int] == k);
                        }
                        if adjacency_keys(adj@).contains(k) {
                            assert(module_ids(p.modules).take(i as int).contains(k));
                            let j = choose|j: int|
                                0 <= j < i && module_ids(p.modules).take(i as int)[j] == k;
                            assert(ids_next[j] == k);
                        }
                    }
                },
                None => {
                    adj.push((self.modules[i].id.clone(), Vec::new()));
                    assert(adjacency_keys(adj@) =~= adjacency_keys(before).push(
                        p.modules[i as int].id,
                    ));
                    assert forall|k: Seq<char>|
                        adjacency_keys(adj@).contains(k) <==> ids_next.contains(k) by {
                        if ids_next.contains(k) && k != p.modules[i as int].id {
                            let j = choose|j: int| 0 <= j < ids_next.len() && ids_next[j] == k;
                            assert(module_ids(p.modules).take(i as int)[j] == k);
                            assert(adjacency_keys(before).contains(k));
                            let b = choose|b: int|
                                0 <= b < adjacency_keys(before).len() && adjacency_keys(before)[b]
                                    == k;
                            assert(adjacency_keys(adj@)[b] == k);
                        }
                        if adjacency_keys(adj@).contains(k) && k != p.modules[i as int].id {
                            let b = choose|b: int|
                                0 <= b < adjacency_keys(adj@).len() && adjacency_keys(adj@)[b]
                                    == k;
                            assert(adjacency_keys(before)[b] == k);
                            assert(adjacency_keys(before).contains(k));
                            assert(module_ids(p.modules).take(i as int).contains(k));
                            let j = choose|j: int|
                                0 <= j < i && module_ids(p.modules).take(i as int)[j] == k;
                            assert(ids_next[j] == k);
                        }
                        if k == p.modules[i as int].id {
                            assert(adjacency_keys(adj@)[adj@.len() - 1] == k);
                            assert(ids_next[i as int] == k);
                        }
                    }
                    assert(adjacency_targets(adj@, adj@.len() - 1) =~= seq![]);
                    assert forall|a: int| 0 <= a < before.len() implies adjacency_targets(adj@, a)
                        == adjacency_targets(before, a) by {}
                    assert forall|a: int| 0 <= a < adj@.len() implies adjacency_targets(
                        adj@,
                        a,
                    ).len() == 0 by {
                        if a < before.len() {
                            assert(adjacency_targets(before, a).len() == 0);
                        }
                    }
                },
            }
            i = i + 1;
        }
        assert(module_ids(p.modules).take(i as int) =~= module_ids(p.modules));
        assert(source_ids(p.connections).take(0) =~= seq![]);
        assert forall|a: int| 0 <= a < adj@.len() implies adjacency_targets(adj@, a)
            == targets_from(p.connections.take(0), adjacency_keys(adj@)[a]) by {
            assert(adjacency_targets(adj@, a) =~= seq![]);
            assert(p.connections.take(0) =~= seq![]);
        }
        let mut c: usize = 0;
        while c < self.connections.len()
            invariant
                p == self@,
                c <= self.connections@.len(),
                p.connections.len() == self.connections@.len(),
                forall|a: int, b: int|
                    0 <= a < b < adj@.len() ==> adjacency_keys(adj@)[a] != adjacency_keys(adj@)[b],
                forall|k: Seq<char>|
                    adjacency_keys(adj@).contains(k) <==> (module_ids(p.modules).contains(k)
                        || source_ids(p.connections).take(c as int).contains(k)),
                forall|a: int|
                    0 <= a < adj@.len() ==> adjacency_targets(adj@, a) == targets_from(
                        p.connections.take(c as int),
                        adjacency_keys(adj@)[a],
                    ),
            decreases self.connections@.len() - c,
        {
            let ghost before = adj@;
            let ghost conn = p.connections[c as int];
            let ghost from = conn.from.module_id;
            let ghost done = p.connections.take(c as int);
            let ghost srcs_next = source_ids(p.connections).take(c + 1);
            assert(srcs_next =~= source_ids(p.connections).take(c as int).push(from));
            let idx = match key_index(&adj, self.connections[c].from.module_id.as_str()) {
                Some(idx) => {
                    assert forall|k: Seq<char>|
                        adjacency_keys(adj@).contains(k) <==> (adjacency_keys(before).contains(k)
                            || k == from) by {
                        if k == from {
                            assert(adjacency_keys(adj@)[idx as int] == k);
                        }
                    }
                    idx
                },
                None => {
                    adj.push((self.connections[c].from.module_id.clone(), Vec::new()));
                    proof {
                        let last = adj@.len() - 1;
                        assert(adjacency_keys(adj@) =~= adjacency_keys(before).push(from));
                        assert(source_ids(done) =~= source_ids(p.connections).take(c as int));
                        lemma_no_targets(done, from);
                        assert(adjacency_targets(adj@, last) =~= targets_from(done, from));
                        assert forall|a: int| 0 <= a < last implies adjacency_targets(adj@, a)
                            == adjacency_targets(before, a) by {}
                        assert forall|a: int| 0 <= a < adj@.len() implies adjacency_targets(
                            adj@,
                            a,
                        ) == targets_from(done, adjacency_keys(adj@)[a]) by {
                            if a < last {
                                assert(adjacency_keys(adj@)[a] == adjacency_keys(before)[a]);
                                assert(adjacency_targets(before, a) == targets_from(
                                    done,
                                    adjacency_keys(before)[a],
                                ));
                            }
                        }
                        assert forall|k: Seq<char>|
                            adjacency_keys(adj@).contains(k) <==> (adjacency_keys(
                                before,
                            ).contains(k) || k == from) by {
                            if adjacency_keys(adj@).contains(k) && k != from {
                                let b = choose|b: int|
                                    0 <= b < adjacency_keys(adj@).len() && adjacency_keys(adj@)[b]
                                        == k;
                                assert(adjacency_keys(before)[b] == k);
                            }
                            if adjacency_keys(before).contains(k) {
                                let b = choose|b: int|
                                    0 <= b < adjacency_keys(before).len() && adjacency_keys(
                                        before,
                                    )[b] == k;
                                assert(adjacency_keys(adj@)[b] == k);
                            }
                            if k == from {
                                assert(adjacency_keys(adj@)[last] == k);
                            }
                        }
                    }
                    adj.len() - 1
                },
            };
            let ghost mid = adj@;
            assert(adjacency_keys(mid)[idx as int] == from);
            assert(forall|a: int|
                0 <= a < mid.len() ==> adjacency_targets(mid, a) == targets_from(
                    done,
                    adjacency_keys(mid)[a],
                ));
            let target = self.connections[c].to.module_id.clone();
            adj[idx].1.push(target);
            proof {
                assert(adjacency_keys(adj@) =~= adjacency_keys(mid));
                assert(adjacency_targets(adj@, idx as int) =~= adjacency_targets(
                    mid,
                    idx as int,
                ).push(conn.to.module_id));
                assert forall|a: int| 0 <= a < adj@.len() implies adjacency_targets(adj@, a)
                    == targets_from(p.connections.take(c + 1), adjacency_keys(adj@)[a]) by {
                    let k = adjacency_keys(adj@)[a];
                    lemma_targets_from_step(p.connections, c as int, k);
                    if a != idx {
                        assert(adjacency_targets(adj@, a) == adjacency_targets(mid, a));
                        assert(k != from);
                    }
                }
                assert forall|k: Seq<char>|
                    adjacency_keys(adj@).contains(k) <==> (module_ids(p.modules).contains(k)
                        || srcs_next.contains(k)) by {
                    assert(adjacency_keys(adj@).contains(k) == adjacency_keys(mid).contains(k));
                    assert(adjacency_keys(mid).contains(k) <==> (adjacency_keys(before).contains(k)
                        || k == from));
                    assert(adjacency_keys(before).contains(k) <==> (module_ids(
                        p.modules,
                    ).contains(k) || source_ids(p.connections).take(c as int).contains(k)));
                    if srcs_next.contains(k) && k != from {
                        let j = choose|j: int| 0 <= j < srcs_next.len() && srcs_next[j] == k;
                        assert(source_ids(p.connections).take(c as int)[j] == k);
                    }
                    if source_ids(p.connections).take(c as int).contains(k) {
                        let j = choose|j: int|
                            0 <= j < c && source_ids(p.connections).take(c as int)[j] == k;
                        assert(srcs_next[j] == k);
                    }
                    if k == from {
                        assert(srcs_next[c as int] == k);
                    }
                }
            }
            c = c + 1;
        }
        assert(source_ids(p.connections).take(c as int) =~= source_ids(p.connections));
        assert(p.connections.take(c as int) =~= p.connections);
        adj
    }
}

/// A sequence of connections none of which starts at `a` has no targets for
/// `a`.
proof fn lemma_no_targets(cs: Seq<ConnectionView>, a: Seq<char>)
    requires
        !source_ids(cs).contains(a),
    ensures
        targets_from(cs, a) == Seq::<Seq<char>>::empty(),
    decreases cs.len(),
{
    if cs.len() > 0 {
        assert(source_ids(cs)[cs.len() - 1] == cs.last().from.module_id);
        assert(!source_ids(cs.drop_last()).contains(a)) by {
            if source_ids(cs.drop_last()).contains(a) {
                let j = choose|j: int|
                    0 <= j < source_ids(cs.drop_last()).len() && source_ids(cs.drop_last())[j]
                        == a;
                assert(source_ids(cs)[j] == a);
            }
        }
        lemma_no_targets(cs.drop_last(), a);
    }
}

// ── Builder Pattern (Création) ───────────────────────────────────

pub struct PatchBuilder {
    modules: Vec<Module>,
    connections: Vec<Connection>,
}

impl View for PatchBuilder {
    type V = PatchView;

    closed spec fn view(&self) -> PatchView {
        PatchView {
            modules: self.modules@.map_values(|m: Module| m@),
            connections: self.connections@.map_values(|c: Connection| c@),
        }
    }
}

impl PatchBuilder {
    pub fn new() -> (r: Self)
        ensures
            r@ == (PatchView { modules: seq![], connections: seq![] }),
    {
        let r = PatchBuilder { modules: Vec::new(), connections: Vec::new() };
        assert(r@.modules =~= seq![]);
        assert(r@.connections =~= seq![]);
        r
    }

    pub fn add_module(self, module: Module) -> (r: Self)
        ensures
            r@ == (PatchView { modules: self@.modules.push(module@), ..self@ }),
    {
        let mut b = self;
        let ghost m = module@;
        b.modules.push(module);
        assert(b@.modules =~= self@.modules.push(m));
        b
    }

    pub fn add_connection(self, connection: Connection) -> (r: Self)
        ensures
            r@ == (PatchView { connections: self@.connections.push(connection@), ..self@ }),
    {
        let mut b = self;
        let ghost c = connection@;
        b.connections.push(connection);
        assert(b@.connections =~= self@.connections.push(c));
        b
    }

    /// The patch with the modules and connections added so far; building
    /// always succeeds.
    pub fn build(self) -> (r: Result<Patch, PatchError>)
        ensures
            r matches Ok(p) && p@ == self@,
    {
        let patch = Patch { modules: self.modules, connections: self.connections };
        Ok(patch)
    }
}

// ── Anti-corruption layer : IPC → Domain ─────────────────────────

/// Applying parameter settings in order; settings without a number, for an
/// unknown parameter or out of bounds are skipped.
pub open spec fn apply_settings(m: ModuleView, es: Seq<(Seq<char>, Option<u64>)>) -> ModuleView
    decreases es.len(),
{
    if es.len() == 0 {
        m
    } else {
        let m1 = apply_settings(m, es.drop_last());
        match es.last().1 {
            Some(v) => match module_set_param(m1, es.last().0, v) {
                Ok(m2) => m2,
                Err(_) => m1,
            },
            None => m1,
        }
    }
}

/// Applying the parameter maps of a module in order.
pub open spec fn apply_maps(m: ModuleView, maps: Seq<Seq<(Seq<char>, Option<u64>)>>) -> ModuleView
    decreases maps.len(),
{
    if maps.len() == 0 {
        m
    } else {
        apply_settings(apply_maps(m, maps.drop_last()), maps.last())
    }
}

/// A module as sent becomes a module of its kind with default parameters,
/// then its settings applied.
pub open spec fn module_from_ipc(im: crate::ipc::protocol::IpcModuleView) -> Result<
    ModuleView,
    PatchErrorView,
> {
    match parse_kind(im.kind) {
        Err(e) => Err(e),
        Ok(k) => Ok(
            apply_maps(ModuleView { id: im.id, kind: k, params: default_param_table(k) }, im.params),
        ),
    }
}

/// Converting modules in order; the first failure is the result.
pub open spec fn modules_from_ipc(ims: Seq<crate::ipc::protocol::IpcModuleView>) -> Result<
    Seq<ModuleView>,
    PatchErrorView,
>
    decreases ims.len(),
{
    if ims.len() == 0 {
        Ok(seq![])
    } else {
        match modules_from_ipc(ims.drop_last()) {
            Err(e) => Err(e),
            Ok(ms) => match module_from_ipc(ims.last()) {
                Err(e) => Err(e),
                Ok(m) => Ok(ms.push(m)),
            },
        }
    }
}

/// A connection as sent: both ports are read, the source first.
pub open spec fn connection_from_ipc(ic: crate::ipc::protocol::IpcConnectionView) -> Result<
    ConnectionView,
    PatchErrorView,
> {
    match parse_port(ic.from) {
        Err(e) => Err(e),
        Ok(f) => match parse_port(ic.to) {
            Err(e) => Err(e),
            Ok(t) => Ok(ConnectionView { from: f, to: t }),
        },
    }
}

/// Converting connections in order; the first failure is the result.
pub open spec fn connections_from_ipc(ics: Seq<crate::ipc::protocol::IpcConnectionView>) -> Result<
    Seq<ConnectionView>,
    PatchErrorView,
>
    decreases ics.len(),
{
    if ics.len() == 0 {
        Ok(seq![])
    } else {
        match connections_from_ipc(ics.drop_last()) {
            Err(e) => Err(e),
            Ok(cs) => match connection_from_ipc(ics.last()) {
                Err(e) => Err(e),
                Ok(c) => Ok(cs.push(c)),
            },
        }
    }
}

/// A patch as sent: its modules, then its connections.
pub open spec fn patch_from_ipc(ip: crate::ipc::protocol::IpcPatchView) -> Result<
    PatchView,
    PatchErrorView,
> {
    match modules_from_ipc(ip.modules) {
        Err(e) => Err(e),
        Ok(ms) => match connections_from_ipc(ip.connections) {
            Err(e) => Err(e),
            Ok(cs) => Ok(PatchView { modules: ms, connections: cs }),
        },
    }
}

/// Converting a patch fails only on an unknown kind or a malformed port.
pub proof fn lemma_patch_from_ipc_errors(ip: crate::ipc::protocol::IpcPatchView)
    ensures
        patch_from_ipc(ip) matches Err(e) ==> (e is UnknownModuleKind || e is InvalidPortId),
{
    lemma_modules_from_ipc_errors(ip.modules);
    lemma_connections_from_ipc_errors(ip.connections);
}

/// The conversion of a sent patch, element by element: it succeeds exactly
/// when every module and then every connection converts, and then gives the
/// converted modules and connections in order; otherwise it fails with the
/// failure of the first module that does not convert (an unknown kind) or,
/// every module converting, of the first connection that does not (a
/// malformed port).
pub proof fn lemma_patch_from_ipc_first_failure(ip: crate::ipc::protocol::IpcPatchView)
    ensures
        match patch_from_ipc(ip) {
            Ok(p) => {
                &&& p.modules.len() == ip.modules.len()
                &&& forall|i: int|
                    0 <= i < ip.modules.len() ==> module_from_ipc(#[trigger] ip.modules[i]) == Ok::<
                        ModuleView,
                        PatchErrorView,
                    >(p.modules[i])
                &&& p.connections.len() == ip.connections.len()
                &&& forall|i: int|
                    0 <= i < ip.connections.len() ==> connection_from_ipc(
                        #[trigger] ip.connections[i],
                    ) == Ok::<ConnectionView, PatchErrorView>(p.connections[i])
            },
            Err(e) => {
                ||| exists|i: int|
                    0 <= i < ip.modules.len() && module_from_ipc(#[trigger] ip.modules[i]) == Err::<
                        ModuleView,
                        PatchErrorView,
                    >(e) && forall|j: int| 0 <= j < i ==> module_from_ipc(ip.modules[j]) is Ok
                ||| (forall|j: int| 0 <= j < ip.modules.len() ==> module_from_ipc(ip.modules[j]) is Ok)
                    && exists|i: int|
                    0 <= i < ip.connections.len() && connection_from_ipc(#[trigger] ip.connections[i])
                        == Err::<ConnectionView, PatchErrorView>(e) && forall|j: int|
                        0 <= j < i ==> connection_from_ipc(ip.connections[j]) is Ok
            },
        },
{
    lemma_modules_elementwise(ip.modules);
    lemma_connections_elementwise(ip.connections);
}

proof fn lemma_modules_elementwise(ims: Seq<crate::ipc::protocol::IpcModuleView>)
    ensures
        match modules_from_ipc(ims) {
            Ok(ms) => ms.len() == ims.len() && forall|i: int|
                0 <= i < ims.len() ==> module_from_ipc(#[trigger] ims[i]) == Ok::<
                    ModuleView,
                    PatchErrorView,
                >(ms[i]),
            Err(e) => exists|i: int|
                0 <= i < ims.len() && module_from_ipc(#[trigger] ims[i]) == Err::<
                    ModuleView,
                    PatchErrorView,
                >(e) && forall|j: int| 0 <= j < i ==> module_from_ipc(ims[j]) is Ok,
        },
    decreases ims.len(),
{
    if ims.len() > 0 {
        let pre = ims.drop_last();
        let n = pre.len() as int;
        lemma_modules_elementwise(pre);
        assert forall|j: int| 0 <= j < n implies ims[j] == pre[j] by {}
        match modules_from_ipc(pre) {
            Err(e) => {
                let i = choose|i: int|
                    0 <= i < pre.len() && module_from_ipc(#[trigger] pre[i]) == Err::<
                        ModuleView,
                        PatchErrorView,
                    >(e) && forall|j: int| 0 <= j < i ==> module_from_ipc(pre[j]) is Ok;
                assert(module_from_ipc(ims[i]) == Err::<ModuleView, PatchErrorView>(e));
            },
            Ok(ms) => match module_from_ipc(ims.last()) {
                Err(e) => {
                    assert(module_from_ipc(ims[n]) == Err::<ModuleView, PatchErrorView>(e));
                    assert forall|j: int| 0 <= j < n implies module_from_ipc(ims[j]) is Ok by {
                        assert(module_from_ipc(pre[j]) == Ok::<ModuleView, PatchErrorView>(ms[j]));
                    }
                },
                Ok(m) => {
                    assert forall|i: int| 0 <= i < ims.len() implies module_from_ipc(
                        #[trigger] ims[i],
                    ) == Ok::<ModuleView, PatchErrorView>(ms.push(m)[i]) by {
                        if i < n {
                            assert(module_from_ipc(pre[i]) == Ok::<ModuleView, PatchErrorView>(ms[i]));
                        }
                    }
                },
            },
        }
    }
}

proof fn lemma_connections_elementwise(ics: Seq<crate::ipc::protocol::IpcConnectionView>)
    ensures
        match connections_from_ipc(ics) {
            Ok(cs) => cs.len() == ics.len() && forall|i: int|
                0 <= i < ics.len() ==> connection_from_ipc(#[trigger] ics[i]) == Ok::<
                    ConnectionView,
                    PatchErrorView,
                >(cs[i]),
            Err(e) => exists|i: int|
                0 <= i < ics.len() && connection_from_ipc(#[trigger] ics[i]) == Err::<
                    ConnectionView,
                    PatchErrorView,
                >(e) && forall|j: int| 0 <= j < i ==> connection_from_ipc(ics[j]) is Ok,
        },
    decreases ics.len(),
{
    if ics.len() > 0 {
        let pre = ics.drop_last();
        let n = pre.len() as int;
        lemma_connections_elementwise(pre);
        assert forall|j: int| 0 <= j < n implies ics[j] == pre[j] by {}
        match connections_from_ipc(pre) {
            Err(e) => {
                let i = choose|i: int|
                    0 <= i < pre.len() && connection_from_ipc(#[trigger] pre[i]) == Err::<
                        ConnectionView,
                        PatchErrorView,
                    >(e) && forall|j: int| 0 <= j < i ==> connection_from_ipc(pre[j]) is Ok;
                assert(connection_from_ipc(ics[i]) == Err::<ConnectionView, PatchErrorView>(e));
            },
            Ok(cs) => match connection_from_ipc(ics.last()) {
                Err(e) => {
                    assert(connection_from_ipc(ics[n]) == Err::<ConnectionView, PatchErrorView>(e));
                    assert forall|j: int| 0 <= j < n implies connection_from_ipc(ics[j]) is Ok by {
                        assert(connection_from_ipc(pre[j]) == Ok::<ConnectionView, PatchErrorView>(
                            cs[j],
                        ));
                    }
                },
                Ok(c) => {
                    assert forall|i: int| 0 <= i < ics.len() implies connection_from_ipc(
                        #[trigger] ics[i],
                    ) == Ok::<ConnectionView, PatchErrorView>(cs.push(c)[i]) by {
                        if i < n {
                            assert(connection_from_ipc(pre[i]) == Ok::<ConnectionView, PatchErrorView>(
                                cs[i],
                            ));
                        }
                    }
                },
            },
        }
    }
}

proof fn lemma_modules_from_ipc_errors(ims: Seq<crate::ipc::protocol::IpcModuleView>)
    ensures
        modules_from_ipc(ims) matches Err(e) ==> e is UnknownModuleKind,
    decreases ims.len(),
{
    if ims.len() > 0 {
        lemma_modules_from_ipc_errors(ims.drop_last());
    }
}

proof fn lemma_connections_from_ipc_errors(ics: Seq<crate::ipc::protocol::IpcConnectionView>)
    ensures
        connections_from_ipc(ics) matches Err(e) ==> e is InvalidPortId,
    decreases ics.len(),
{
    if ics.len() > 0 {
        lemma_connections_from_ipc_errors(ics.drop_last());
    }
}

/// A failure among the first modules is the failure of the whole.
proof fn lemma_modules_prefix_err(s: Seq<crate::ipc::protocol::IpcModuleView>, k: int)
    requires
        0 <= k <= s.len(),
        modules_from_ipc(s.take(k)) is Err,
    ensures
        modules_from_ipc(s) == modules_from_ipc(s.take(k)),
    decreases s.len() - k,
{
    if k == s.len() {
        assert(s.take(k) =~= s);
    } else {
        assert(s.take(k + 1).drop_last() =~= s.take(k));
        lemma_modules_prefix_err(s, k + 1);
    }
}

/// A failure among the first connections is the failure of the whole.
proof fn lemma_connections_prefix_err(s: Seq<crate::ipc::protocol::IpcConnectionView>, k: int)
    requires
        0 <= k <= s.len(),
        connections_from_ipc(s.take(k)) is Err,
    ensures
        connections_from_ipc(s) == connections_from_ipc(s.take(k)),
    decreases s.len() - k,
{
    if k == s.len() {
        assert(s.take(k) =~= s);
    } else {
        assert(s.take(k + 1).drop_last() =~= s.take(k));
        lemma_connections_prefix_err(s, k + 1);
    }
}

impl Patch {
    /// The domain patch described by a patch as sent by the user interface.
    pub fn from_ipc(ipc_patch: &crate::ipc::protocol::Patch) -> (r: Result<Self, PatchError>)
        ensures
            match patch_from_ipc(ipc_patch@) {
                Ok(p) => r matches Ok(q) && q@ == p,
                Err(e) => r matches Err(err) && err@ == e,
            },
    {
        let ghost ip = ipc_patch@;
        let mut builder = PatchBuilder::new();
        let mut i: usize = 0;
        while i < ipc_patch.modules.len()
            invariant
                ip == ipc_patch@,
                i <= ipc_patch.modules@.len(),
                ip.modules.len() == ipc_patch.modules@.len(),
                modules_from_ipc(ip.modules.take(i as int)) == Ok::<Seq<ModuleView>, PatchErrorView>(
                    builder@.modules,
                ),
                builder@.connections == Seq::<ConnectionView>::empty(),
            decreases ipc_patch.modules@.len() - i,
        {
            let ipc_module = &ipc_patch.modules[i];
            assert(ip.modules.take(i + 1).drop_last() =~= ip.modules.take(i as int));
            assert(ip.modules.take(i + 1).last() == ipc_module@);
            let kind = match ModuleKind::from_str(ipc_module.kind.as_str()) {
                Ok(k) => k,
                Err(e) => {
                    proof {
                        lemma_modules_prefix_err(ip.modules, i + 1);
                    }
                    return Err(e);
                },
            };
            let mut module = Module::new(ipc_module.id.as_str(), kind);
            let ghost start = module@;
            let mut p: usize = 0;
            while p < ipc_module.params.len()
                invariant
                    p <= ipc_module.params@.len(),
                    module@ == apply_maps(start, ipc_module@.params.take(p as int)),
                    ipc_module@.params.len() == ipc_module.params@.len(),
                decreases ipc_module.params@.len() - p,
            {
                let map = &ipc_module.params[p];
                let ghost before_map = module@;
                assert(ipc_module@.params.take(p + 1).drop_last() =~= ipc_module@.params.take(
                    p as int,
                ));
                assert(ipc_module@.params[p as int] == crate::ipc::protocol::param_view(*map));
                let mut e: usize = 0;
                while e < map.len()
                    invariant
                        e <= map@.len(),
                        module@ == apply_settings(
                            before_map,
                            crate::ipc::protocol::param_view(*map).take(e as int),
                        ),
                        crate::ipc::protocol::param_view(*map).len() == map@.len(),
                    decreases map@.len() - e,
                {
                    let ghost es = crate::ipc::protocol::param_view(*map);
                    assert(es.take(e + 1).drop_last() =~= es.take(e as int));
                    assert(es.take(e + 1).last() == (map@[e as int].0@, map@[e as int].1));
                    match map[e].1 {
                        Some(v) => {
                            let _ = module.set_param(map[e].0.as_str(), v);
                        },
                        None => {},
                    }
                    e = e + 1;
                }
                assert(crate::ipc::protocol::param_view(*map).take(e as int) =~= crate::ipc::protocol::param_view(
                    *map,
                ));
                p = p + 1;
            }
            assert(ipc_module@.params.take(p as int) =~= ipc_module@.params);
            builder = builder.add_module(module);
            i = i + 1;
        }
        assert(ip.modules.take(i as int) =~= ip.modules);
        let mut c: usize = 0;
        while c < ipc_patch.connections.len()
            invariant
                ip == ipc_patch@,
                c <= ipc_patch.connections@.len(),
                ip.connections.len() == ipc_patch.connections@.len(),
                modules_from_ipc(ip.modules) == Ok::<Seq<ModuleView>, PatchErrorView>(
                    builder@.modules,
                ),
                connections_from_ipc(ip.connections.take(c as int)) == Ok::<
                    Seq<ConnectionView>,
                    PatchErrorView,
                >(builder@.connections),
            decreases ipc_patch.connections@.len() - c,
        {
            let ipc_conn = &ipc_patch.connections[c];
            assert(ip.connections.take(c + 1).drop_last() =~= ip.connections.take(c as int));
            assert(ip.connections.take(c + 1).last() == ipc_conn@);
            let from = match PortId::parse(ipc_conn.from.as_str()) {
                Ok(p) => p,
                Err(e) => {
                    proof {
                        lemma_connections_prefix_err(ip.connections, c + 1);
                    }
                    return Err(e);
                },
            };
            let to = match PortId::parse(ipc_conn.to.as_str()) {
                Ok(p) => p,
                Err(e) => {
                    proof {
                        lemma_connections_prefix_err(ip.connections, c + 1);
                    }
                    return Err(e);
                },
            };
            builder = builder.add_connection(Connection::new(from, to));
            c = c + 1;
        }
        assert(ip.connections.take(c as int) =~= ip.connections);
        builder.build()
    }
}

// ── Errors ───────────────────────────────────────────────────────

#[derive(Debug, Clone)]
pub enum PatchError {
    ModuleNotFound(String),
    ParamNotFound { module_id: String, param_name: String },
    ParamOutOfRange { name: String, min: u64, max: u64, got: u64 },
    InvalidPortId(String),
    UnknownModuleKind(String),
    ValidationFailed(Vec<String>),
}

impl View for PatchError {
    type V = PatchErrorView;

    open spec fn view(&self) -> PatchErrorView {
        match self {
            PatchError::ModuleNotFound(id) => PatchErrorView::ModuleNotFound(id@),
            PatchError::ParamNotFound { module_id, param_name } => PatchErrorView::ParamNotFound {
                module_id: module_id@,
                param_name: param_name@,
            },
            PatchError::ParamOutOfRange { name, min, max, got } => PatchErrorView::ParamOutOfRange {
                name: name@,
                min: *min,
                max: *max,
                got: *got,
            },
            PatchError::InvalidPortId(s) => PatchErrorView::InvalidPortId(s@),
            PatchError::UnknownModuleKind(s) => PatchErrorView::UnknownModuleKind(s@),
            PatchError::ValidationFailed(errors) => PatchErrorView::ValidationFailed(
                errors@.map_values(|e: String| e@),
            ),
        }
    }
}

} // verus!
