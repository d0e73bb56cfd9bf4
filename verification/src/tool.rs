//! The tool boundary and the registry of tools.

use vstd::prelude::*;

use crate::error::ToolError;
use crate::json::{json_equiv, Json, JsonValue};

verus! {

/// A tool declaration handed to the model with each completion request.
#[derive(Debug)]
pub struct ToolSchema {
    pub name: String,
    pub description: String,
    /// JSON Schema of the arguments; providers map it to their API format.
    pub parameters: JsonValue,
}

/// Model of a [`ToolSchema`].
pub struct ToolSchemaModel {
    pub name: Seq<char>,
    pub description: Seq<char>,
    pub parameters: Json,
}

impl View for ToolSchema {
    type V = ToolSchemaModel;

    open spec fn view(&self) -> ToolSchemaModel {
        ToolSchemaModel {
            name: self.name@,
            description: self.description@,
            parameters: self.parameters@,
        }
    }
}

/// The models of a sequence of schemas.
pub open spec fn schemas_view(s: Seq<ToolSchema>) -> Seq<ToolSchemaModel> {
    s.map_values(|x: ToolSchema| x@)
}

impl ToolSchema {
    /// A copy of the schema.
    pub fn duplicate(&self) -> (r: ToolSchema)
        ensures
            r@ == self@,
    {
        ToolSchema {
            name: self.name.clone(),
            description: self.description.clone(),
            parameters: self.parameters.duplicate(),
        }
    }
}

impl Clone for ToolSchema {
    fn clone(&self) -> (r: Self)
        ensures
            r@ == self@,
    {
        self.duplicate()
    }
}

/// Whether two schemas are equal: the same name and description, and parameters
/// equal as JSON values.
pub open spec fn schema_equiv(a: ToolSchemaModel, b: ToolSchemaModel) -> bool {
    a.name == b.name && a.description == b.description && json_equiv(a.parameters, b.parameters)
}

impl PartialEq for ToolSchema {
    fn eq(&self, other: &Self) -> (r: bool) {
        self.name == other.name && self.description == other.description && self.parameters
            == other.parameters
    }
}

impl vstd::std_specs::cmp::PartialEqSpecImpl for ToolSchema {
    open spec fn obeys_eq_spec() -> bool {
        true
    }

    open spec fn eq_spec(&self, other: &ToolSchema) -> bool {
        schema_equiv(self@, other@)
    }
}

/// An executable tool. Failures are returned as [`ToolError`] and fed back into
/// the conversation; they never stop the loop.
///
/// Each tool says, by its own `declares` and `may_return`, which schemas it may
/// declare and which outcomes it may give for given arguments.
pub trait Tool {
    /// Whether `s` is a schema this tool may declare; any schema, unless the tool
    /// says more.
    open spec fn declares(&self, s: ToolSchemaModel) -> bool {
        true
    }

    /// Whether `r` is an outcome this tool may give for the arguments `args`; any
    /// outcome, unless the tool says more.
    open spec fn may_return(&self, args: Json, r: Result<String, ToolError>) -> bool {
        true
    }

    fn schema(&self) -> (r: ToolSchema)
        ensures
            self.declares(r@),
    ;

    fn execute(&self, args: JsonValue) -> (r: Result<String, ToolError>)
        ensures
            self.may_return(args@, r),
    ;
}

/// A boxed tool is a tool: registries of tools of different types hold
/// `Box<dyn Tool>`. It declares and returns what the tool inside does.
impl Tool for Box<dyn Tool> {
    open spec fn declares(&self, s: ToolSchemaModel) -> bool {
        (**self).declares(s)
    }

    open spec fn may_return(&self, args: Json, r: Result<String, ToolError>) -> bool {
        (**self).may_return(args, r)
    }

    fn schema(&self) -> (r: ToolSchema) {
        (**self).schema()
    }

    fn execute(&self, args: JsonValue) -> (r: Result<String, ToolError>) {
        (**self).execute(args)
    }
}

/// The tools of a run, each under the name its schema gave when it was registered.
/// No name occurs twice. Tools of different types are registered as `Box<dyn Tool>`.
pub struct ToolRegistry<T> {
    tools: Vec<(String, T)>,
}

/// `names` with `name` added at the end, unless it is already there.
pub open spec fn insert_name(names: Seq<Seq<char>>, name: Seq<char>) -> Seq<Seq<char>> {
    if names.contains(name) {
        names
    } else {
        names.push(name)
    }
}

/// The tool stored under `name` in a sequence of entries.
pub open spec fn lookup_in<T>(tools: Seq<(String, T)>, name: Seq<char>) -> Option<T> {
    if exists|i: int| 0 <= i < tools.len() && tools[i].0@ == name {
        let i = choose|i: int| 0 <= i < tools.len() && tools[i].0@ == name;
        Some(tools[i].1)
    } else {
        None
    }
}

/// No name occurs twice among the entries.
pub open spec fn names_distinct<T>(tools: Seq<(String, T)>) -> bool {
    forall|i: int, j: int| 0 <= i < j < tools.len() ==> tools[i].0@ != tools[j].0@
}

proof fn lemma_lookup_found<T>(tools: Seq<(String, T)>, k: int)
    requires
        names_distinct(tools),
        0 <= k < tools.len(),
    ensures
        lookup_in(tools, tools[k].0@) == Some(tools[k].1),
{
    let n = tools[k].0@;
    assert(0 <= k < tools.len() && tools[k].0@ == n);
    let i = choose|i: int| 0 <= i < tools.len() && tools[i].0@ == n;
    if i < k {
        assert(tools[i].0@ != tools[k].0@);
    } else if k < i {
        assert(tools[k].0@ != tools[i].0@);
    }
}

impl<T> ToolRegistry<T> {
    /// The names of the registered tools, in order of first registration.
    pub closed spec fn names(&self) -> Seq<Seq<char>> {
        self.tools@.map_values(|e: (String, T)| e.0@)
    }

    /// The tool registered under `name`, if any.
    pub closed spec fn lookup(&self, name: Seq<char>) -> Option<T> {
        lookup_in(self.tools@, name)
    }

    #[verifier::type_invariant]
    closed spec fn names_unique(&self) -> bool {
        names_distinct(self.tools@)
    }
}

impl<T: Tool> ToolRegistry<T> {
    /// Whether a tool is registered under `name` and `s` is a schema it declares.
    pub open spec fn declared(&self, name: Seq<char>, s: ToolSchemaModel) -> bool {
        self.lookup(name) matches Some(t) && t.declares(s)
    }

    /// An empty registry.
    pub fn new() -> (r: ToolRegistry<T>)
        ensures
            r.names() == Seq::<Seq<char>>::empty(),
            forall|n: Seq<char>| r.lookup(n) is None,
    {
        let r = ToolRegistry { tools: Vec::new() };
        assert(r.names() =~= Seq::<Seq<char>>::empty());
        r
    }

    fn find(&self, name: &str) -> (r: Option<usize>)
        ensures
            match r {
                Some(i) => i < self.tools@.len() && self.tools@[i as int].0@ == name@,
                None => forall|i: int| 0 <= i < self.tools@.len() ==> self.tools@[i].0@ != name@,
            },
    {
        let key = String::from_str(name);
        let mut i: usize = 0;
        while i < self.tools.len()
            invariant
                i <= self.tools@.len(),
                key@ == name@,
                forall|j: int| 0 <= j < i ==> self.tools@[j].0@ != name@,
            decreases self.tools@.len() - i,
        {
            if self.tools[i].0 == key {
                return Some(i);
            }
            i = i + 1;
        }
        None
    }

    /// Registers `tool` under `name`; a tool already under that name is replaced.
    pub fn register_named(&mut self, name: String, tool: T)
        ensures
            final(self).names() == insert_name(old(self).names(), name@),
            final(self).names().no_duplicates(),
            final(self).lookup(name@) == Some(tool),
            forall|n: Seq<char>| n != name@ ==> final(self).lookup(n) == old(self).lookup(n),
    {
        proof {
            use_type_invariant(&*self);
        }
        let ghost old_tools = self.tools@;
        let ghost name_v = name@;
        let ghost old_names = self.names();
        let idx = self.find(name.as_str());
        let ghost pos: int = match idx {
            Some(i) => i as int,
            None => old_tools.len() as int,
        };
        let mut tools: Vec<(String, T)> = Vec::new();
        std::mem::swap(&mut tools, &mut self.tools);
        let entry = (name, tool);
        let ghost entry_v = entry;
        match idx {
            Some(i) => {
                assert(old_names[i as int] == name_v);
                tools.set(i, entry);
            },
            None => {
                assert(!old_names.contains(name_v)) by {
                    if old_names.contains(name_v) {
                        let k = choose|k: int| 0 <= k < old_names.len() && old_names[k] == name_v;
                        assert(old_tools[k].0@ == name_v);
                    }
                }
                tools.push(entry);
            },
        }
        let ghost nt = tools@;
        assert(nt[pos] == entry_v);
        assert(forall|j: int| 0 <= j < nt.len() && j != pos ==> #[trigger] nt[j] == old_tools[j]);
        assert(names_distinct(nt));
        self.tools = tools;
        assert(self.names() =~= insert_name(old_names, name_v)) by {
            if idx is Some {
                assert(old_names.contains(name_v)) by {
                    assert(old_names[pos] == name_v);
                }
            }
        }
        proof {
            assert forall|a: int, b: int| 0 <= a < self.names().len() && 0 <= b < self.names().len()
                && a != b implies self.names()[a] != self.names()[b] by {
                if a < b {
                    assert(nt[a].0@ != nt[b].0@);
                } else {
                    assert(nt[b].0@ != nt[a].0@);
                }
            }
            lemma_lookup_found(nt, pos);
            assert forall|n: Seq<char>| n != name_v implies lookup_in(nt, n) == lookup_in(old_tools, n) by {
                if exists|k: int| 0 <= k < old_tools.len() && old_tools[k].0@ == n {
                    let k = choose|k: int| 0 <= k < old_tools.len() && old_tools[k].0@ == n;
                    lemma_lookup_found(old_tools, k);
                    assert(k != pos);
                    assert(nt[k] == old_tools[k]);
                    lemma_lookup_found(nt, k);
                } else {
                    if exists|k: int| 0 <= k < nt.len() && nt[k].0@ == n {
                        let k = choose|k: int| 0 <= k < nt.len() && nt[k].0@ == n;
                        assert(k != pos);
                        assert(nt[k] == old_tools[k]);
                    }
                }
            }
        }
    }

    /// Registers a tool under the name of its schema; a tool already registered
    /// under that name is replaced.
    pub fn register(&mut self, tool: T)
        ensures
            exists|s: ToolSchemaModel|
                {
                    &&& #[trigger] tool.declares(s)
                    &&& final(self).names() == insert_name(old(self).names(), s.name)
                    &&& final(self).lookup(s.name) == Some(tool)
                    &&& forall|n: Seq<char>|
                        n != s.name ==> final(self).lookup(n) == old(self).lookup(n)
                },
    {
        let schema = tool.schema();
        let ghost s = schema@;
        let name = schema.name;
        let ghost t = tool;
        self.register_named(name, tool);
        assert({
            &&& t.declares(s)
            &&& self.names() == insert_name(old(self).names(), s.name)
            &&& self.lookup(s.name) == Some(t)
            &&& forall|m: Seq<char>| m != s.name ==> self.lookup(m) == old(self).lookup(m)
        });
    }

    /// The tool registered under `name`.
    pub fn get(&self, name: &str) -> (r: Option<&T>)
        ensures
            match r {
                Some(t) => self.lookup(name@) == Some(*t),
                None => self.lookup(name@) is None,
            },
            r is Some <==> self.names().contains(name@),
    {
        proof {
            use_type_invariant(self);
        }
        match self.find(name) {
            Some(i) => {
                assert(self.names()[i as int] == name@);
                proof {
                    lemma_lookup_found(self.tools@, i as int);
                }
                Some(&self.tools[i].1)
            },
            None => {
                assert(!self.names().contains(name@)) by {
                    if self.names().contains(name@) {
                        let k = choose|k: int| 0 <= k < self.names().len() && self.names()[k] == name@;
                        assert(self.tools@[k].0@ == name@);
                    }
                }
                None
            },
        }
    }

    /// The schemas of all registered tools, in registration order.
    pub fn schemas(&self) -> (r: Vec<ToolSchema>)
        ensures
            r@.len() == self.names().len(),
            forall|i: int| 0 <= i < r@.len() ==> self.declared(self.names()[i], #[trigger] r@[i]@),
    {
        proof {
            use_type_invariant(self);
        }
        let mut out: Vec<ToolSchema> = Vec::new();
        let mut i: usize = 0;
        while i < self.tools.len()
            invariant
                i <= self.tools@.len(),
                out@.len() == i,
                names_distinct(self.tools@),
                forall|j: int| 0 <= j < i ==> self.declared(self.names()[j], #[trigger] out@[j]@),
            decreases self.tools@.len() - i,
        {
            let schema = self.tools[i].1.schema();
            proof {
                lemma_lookup_found(self.tools@, i as int);
                assert(self.names()[i as int] == self.tools@[i as int].0@);
            }
            out.push(schema);
            i = i + 1;
        }
        out
    }

    /// The number of registered tools.
    pub fn len(&self) -> (r: usize)
        ensures
            r == self.names().len(),
    {
        self.tools.len()
    }

    /// Whether no tool is registered.
    pub fn is_empty(&self) -> (r: bool)
        ensures
            r == (self.names().len() == 0),
    {
        self.tools.len() == 0
    }
}

impl<T: Tool> Default for ToolRegistry<T> {
    fn default() -> (r: Self)
        ensures
            r.names() == Seq::<Seq<char>>::empty(),
    {
        Self::new()
    }
}

} // verus!
