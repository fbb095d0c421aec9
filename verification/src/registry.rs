//! The `add_functions!` grammar: `pm, [f, g] from module_a, [h] from module_b, ...`.
//! Its tokens drive a small state machine (`AddFunctions::next`), and the
//! collected modules are rendered as one `add_function` call per function
//! (`AddFunctions::stream`).
use crate::text::{join_lines, spec_join};
use vstd::prelude::*;

verus! {

/// One token of the macro input: its text, and, for a bracketed group, the
/// texts of the tokens inside it.
#[derive(Debug)]
pub struct Token {
    pub text: String,
    pub group: Option<Vec<String>>,
}

/// The model of a [`Token`].
pub struct TokenView {
    pub text: Seq<char>,
    pub group: Option<Seq<Seq<char>>>,
}

/// One `[f, ...] from module` clause as collected so far.
#[derive(Debug)]
pub struct AddFunctionsModule {
    pub module_name: Option<String>,
    pub functions: Vec<String>,
}

/// The model of an [`AddFunctionsModule`].
pub struct ModuleView {
    pub module_name: Option<Seq<char>>,
    pub functions: Seq<Seq<char>>,
}

/// The state of the `add_functions!` parser: the Python module's name, the
/// clauses read so far, and the position in the five-step cycle
/// (0: module, 1: `,`, 2: group, 3: `from`, 4: module name).
#[derive(Debug)]
pub struct AddFunctions {
    pub py_module_name: Option<String>,
    pub modules: Vec<AddFunctionsModule>,
    pub idx: i32,
}

/// The model of an [`AddFunctions`].
pub struct AddFunctionsView {
    pub py_module_name: Option<Seq<char>>,
    pub modules: Seq<ModuleView>,
    pub idx: int,
}

pub open spec fn opt_view(o: Option<String>) -> Option<Seq<char>> {
    match o {
        Some(s) => Some(s@),
        None => None,
    }
}

pub open spec fn strings_view(v: Seq<String>) -> Seq<Seq<char>> {
    v.map_values(|s: String| s@)
}

impl View for Token {
    type V = TokenView;

    open spec fn view(&self) -> TokenView {
        TokenView {
            text: self.text@,
            group: match self.group {
                Some(g) => Some(strings_view(g@)),
                None => None,
            },
        }
    }
}

impl View for AddFunctionsModule {
    type V = ModuleView;

    open spec fn view(&self) -> ModuleView {
        ModuleView { module_name: opt_view(self.module_name), functions: strings_view(self.functions@) }
    }
}

impl View for AddFunctions {
    type V = AddFunctionsView;

    open spec fn view(&self) -> AddFunctionsView {
        AddFunctionsView {
            py_module_name: opt_view(self.py_module_name),
            modules: self.modules@.map_values(|m: AddFunctionsModule| m@),
            idx: self.idx as int,
        }
    }
}

/// The state before any token.
pub open spec fn initial_state() -> AddFunctionsView {
    AddFunctionsView { py_module_name: None, modules: Seq::empty(), idx: 0 }
}

/// The texts of a group, without the `,` separators.
pub open spec fn drop_commas(s: Seq<Seq<char>>) -> Seq<Seq<char>>
    decreases s.len(),
{
    if s.len() == 0 {
        s
    } else if s.last() == ","@ {
        drop_commas(s.drop_last())
    } else {
        drop_commas(s.drop_last()).push(s.last())
    }
}

/// The token that the state expects is the one given: any token at 0, a `,`
/// at 1, a group at 2, `from` at 3, and at 4 any token (the name of the
/// module of the open clause).
pub open spec fn accepts(s: AddFunctionsView, t: TokenView) -> bool {
    if s.idx == 0 {
        true
    } else if s.idx == 1 {
        t.text == ","@
    } else if s.idx == 2 {
        t.group is Some
    } else if s.idx == 3 {
        t.text == "from"@
    } else if s.idx == 4 {
        s.modules.len() > 0
    } else {
        false
    }
}

/// What one accepted token does to the state.
pub open spec fn step(s: AddFunctionsView, t: TokenView) -> AddFunctionsView {
    let next_idx = s.idx % 4 + 1;
    if s.idx == 0 {
        AddFunctionsView { py_module_name: Some(t.text), idx: next_idx, ..s }
    } else if s.idx == 2 {
        AddFunctionsView {
            modules: s.modules.push(
                ModuleView { module_name: None, functions: drop_commas(t.group.unwrap()) },
            ),
            idx: next_idx,
            ..s
        }
    } else if s.idx == 4 {
        AddFunctionsView {
            modules: s.modules.update(
                s.modules.len() - 1,
                ModuleView { module_name: Some(t.text), ..s.modules.last() },
            ),
            idx: next_idx,
            ..s
        }
    } else {
        AddFunctionsView { idx: next_idx, ..s }
    }
}

/// The state after the tokens `ts`, one by one, from `s`.
pub open spec fn run(s: AddFunctionsView, ts: Seq<TokenView>) -> AddFunctionsView
    decreases ts.len(),
{
    if ts.len() == 0 {
        s
    } else {
        step(run(s, ts.drop_last()), ts.last())
    }
}

/// Every token of `ts` is accepted in turn from `s`.
pub open spec fn run_accepts(s: AddFunctionsView, ts: Seq<TokenView>) -> bool
    decreases ts.len(),
{
    if ts.len() == 0 {
        true
    } else {
        run_accepts(s, ts.drop_last()) && accepts(run(s, ts.drop_last()), ts.last())
    }
}

/// The generated registration of function `f` of module `m` in the Python
/// module `pm`.
pub open spec fn registration_line(pm: Seq<char>, m: Seq<char>, f: Seq<char>) -> Seq<char> {
    pm + ".add_function("@ + m + "::__pyo3_get_function_"@ + f
        + "(PyFunctionArguments::PyModule("@ + pm + "))?)?;"@
}

/// The registrations of all functions of all modules, in order.
pub open spec fn registration_lines(pm: Seq<char>, mods: Seq<ModuleView>) -> Seq<Seq<char>>
    decreases mods.len(),
{
    if mods.len() == 0 {
        Seq::empty()
    } else {
        registration_lines(pm, mods.drop_last()) + mods.last().functions.map_values(
            |f: Seq<char>| registration_line(pm, mods.last().module_name.unwrap(), f),
        )
    }
}

/// A module that has functions has a name, and so has the Python module.
pub open spec fn can_render(s: AddFunctionsView) -> bool {
    forall|i: int|
        0 <= i < s.modules.len() && #[trigger] s.modules[i].functions.len() > 0 ==> {
            &&& s.modules[i].module_name is Some
            &&& s.py_module_name is Some
        }
}

/// The generated code: the registrations, one per line.
pub open spec fn render(s: AddFunctionsView) -> Seq<char> {
    spec_join(registration_lines(s.py_module_name.unwrap(), s.modules), "\n"@)
}

impl AddFunctions {
    /// A parser that has read nothing.
    pub fn new() -> (r: AddFunctions)
        ensures
            r@ == initial_state(),
    {
        let r = AddFunctions { py_module_name: None, modules: Vec::new(), idx: 0 };
        proof {
            assert(r@.modules =~= Seq::<ModuleView>::empty());
        }
        r
    }

    /// Reads one token, which must fit the grammar at this point (`accepts`).
    pub fn next(&mut self, token: &Token)
        requires
            accepts(old(self)@, token@),
        ensures
            final(self)@ == step(old(self)@, token@),
    {
        let ghost old_view = self@;
        if self.idx == 0 {
            self.py_module_name = Some(token.text.clone());
        } else if self.idx == 2 {
            let functions = match &token.group {
                Some(group) => drop_comma_tokens(group),
                None => Vec::new(),
            };
            self.modules.push(AddFunctionsModule { module_name: None, functions });
        } else if self.idx == 4 {
            let last = self.modules.pop();
            match last {
                Some(mut m) => {
                    m.module_name = Some(token.text.clone());
                    self.modules.push(m);
                },
                None => {},
            }
        }
        self.idx = self.idx % 4 + 1;
        proof {
            let new_view = step(old_view, token@);
            assert(self@.modules =~= new_view.modules);
        }
    }

    /// Whether `next` takes `token` in this state.
    pub fn accepts_token(&self, token: &Token) -> (r: bool)
        ensures
            r == accepts(self@, token@),
    {
        if self.idx == 0 {
            true
        } else if self.idx == 1 {
            token.text == String::from_str(",")
        } else if self.idx == 2 {
            token.group.is_some()
        } else if self.idx == 3 {
            token.text == String::from_str("from")
        } else if self.idx == 4 {
            self.modules.len() > 0
        } else {
            false
        }
    }

    /// Whether `stream` can render this state: every module with functions
    /// has a name, and so has the Python module.
    pub fn renderable(&self) -> (r: bool)
        ensures
            r == can_render(self@),
    {
        let n = self.modules.len();
        let mut i: usize = 0;
        while i < n
            invariant
                n == self.modules.len(),
                0 <= i <= n,
                forall|j: int|
                    0 <= j < i && #[trigger] self@.modules[j].functions.len() > 0 ==> {
                        &&& self@.modules[j].module_name is Some
                        &&& self@.py_module_name is Some
                    },
            decreases n - i,
        {
            let m = &self.modules[i];
            proof {
                assert(self@.modules[i as int] == m@);
            }
            if m.functions.len() > 0 && (m.module_name.is_none() || self.py_module_name.is_none()) {
                proof {
                    assert(self@.modules[i as int].functions.len() > 0);
                    assert(!(self@.modules[i as int].module_name is Some
                        && self@.py_module_name is Some));
                }
                return false;
            }
            i = i + 1;
        }
        true
    }

    /// The generated registrations, one per line; every module with
    /// functions must have a name (`can_render`).
    pub fn stream(self) -> (r: String)
        requires
            can_render(self@),
        ensures
            r@ == render(self@),
    {
        let ghost s = self@;
        let mut lines: Vec<String> = Vec::new();
        let n = self.modules.len();
        let mut i: usize = 0;
        while i < n
            invariant
                n == self.modules.len(),
                0 <= i <= n,
                s == self@,
                can_render(s),
                strings_view(lines@) == registration_lines(
                    s.py_module_name.unwrap(),
                    s.modules.take(i as int),
                ),
            decreases n - i,
        {
            let module = &self.modules[i];
            let m = module.functions.len();
            let ghost before = strings_view(lines@);
            let mut k: usize = 0;
            while k < m
                invariant
                    n == self.modules.len(),
                    0 <= i < n,
                    module == &self.modules[i as int],
                    m == module.functions.len(),
                    0 <= k <= m,
                    s == self@,
                    can_render(s),
                    strings_view(lines@) == before + module@.functions.take(k as int).map_values(
                        |f: Seq<char>|
                            registration_line(
                                s.py_module_name.unwrap(),
                                module@.module_name.unwrap(),
                                f,
                            ),
                    ),
                decreases m - k,
            {
                proof {
                    assert(s.modules[i as int] == module@);
                    assert(s.modules[i as int].functions.len() > 0);
                }
                let pm = match &self.py_module_name {
                    Some(p) => p.as_str(),
                    None => "",
                };
                let mname = match &module.module_name {
                    Some(p) => p.as_str(),
                    None => "",
                };
                let line = registration(pm, mname, module.functions[k].as_str());
                proof {
                    assert(pm@ == s.py_module_name.unwrap());
                    assert(mname@ == module@.module_name.unwrap());
                    assert(module.functions[k as int]@ == module@.functions[k as int]);
                }
                let ghost lines_before = lines@;
                lines.push(line);
                proof {
                    assert(strings_view(lines@) =~= strings_view(lines_before).push(line@));
                    assert(module@.functions.take(k + 1) =~= module@.functions.take(
                        k as int,
                    ).push(module@.functions[k as int]));
                    assert(strings_view(lines@) =~= before + module@.functions.take(
                        (k + 1) as int,
                    ).map_values(
                        |f: Seq<char>|
                            registration_line(
                                s.py_module_name.unwrap(),
                                module@.module_name.unwrap(),
                                f,
                            ),
                    ));
                }
                k = k + 1;
            }
            proof {
                assert(module@.functions.take(m as int) =~= module@.functions);
                assert(s.modules.take((i + 1) as int).drop_last() =~= s.modules.take(i as int));
                assert(s.modules.take((i + 1) as int).last() == module@);
            }
            i = i + 1;
        }
        proof {
            assert(s.modules.take(n as int) =~= s.modules);
        }
        join_lines(&lines, "\n")
    }
}

/// The texts of a group, without the `,` separators.
fn drop_comma_tokens(group: &Vec<String>) -> (r: Vec<String>)
    ensures
        strings_view(r@) == drop_commas(strings_view(group@)),
{
    let comma = String::from_str(",");
    let mut r: Vec<String> = Vec::new();
    let n = group.len();
    let mut i: usize = 0;
    while i < n
        invariant
            n == group.len(),
            0 <= i <= n,
            comma@ == ","@,
            strings_view(r@) == drop_commas(strings_view(group@.take(i as int))),
        decreases n - i,
    {
        let t = &group[i];
        proof {
            assert(strings_view(group@.take((i + 1) as int)).drop_last() =~= strings_view(
                group@.take(i as int),
            ));
            assert(strings_view(group@.take((i + 1) as int)).last() == t@);
        }
        if !(*t == comma) {
            r.push(t.clone());
            proof {
                assert(strings_view(r@) =~= drop_commas(strings_view(group@.take(i as int))).push(
                    t@,
                ));
            }
        }
        i = i + 1;
    }
    proof {
        assert(group@.take(n as int) =~= group@);
    }
    r
}

/// `pm.add_function(m::__pyo3_get_function_f(PyFunctionArguments::PyModule(pm))?)?;`
fn registration(pm: &str, m: &str, f: &str) -> (r: String)
    ensures
        r@ == registration_line(pm@, m@, f@),
{
    let mut r = String::new();
    r.append(pm);
    r.append(".add_function(");
    r.append(m);
    r.append("::__pyo3_get_function_");
    r.append(f);
    r.append("(PyFunctionArguments::PyModule(");
    r.append(pm);
    r.append("))?)?;");
    r
}

/// Whether `add_functions` takes `tokens`: every token fits the grammar in
/// turn, and the clauses read can be rendered.
pub fn tokens_accepted(tokens: &Vec<Token>) -> (r: bool)
    ensures
        r == (run_accepts(initial_state(), tokens@.map_values(|t: Token| t@)) && can_render(
            run(initial_state(), tokens@.map_values(|t: Token| t@)),
        )),
{
    let ghost views = tokens@.map_values(|t: Token| t@);
    let mut st = AddFunctions::new();
    let n = tokens.len();
    let mut i: usize = 0;
    while i < n
        invariant
            n == tokens.len(),
            0 <= i <= n,
            views == tokens@.map_values(|t: Token| t@),
            run_accepts(initial_state(), views.take(i as int)),
            st@ == run(initial_state(), views.take(i as int)),
        decreases n - i,
    {
        proof {
            assert(views.take((i + 1) as int).drop_last() =~= views.take(i as int));
            assert(views.take((i + 1) as int).last() == tokens[i as int]@);
        }
        if !st.accepts_token(&tokens[i]) {
            proof {
                assert(!run_accepts(initial_state(), views.take((i + 1) as int)));
                if run_accepts(initial_state(), views) {
                    lemma_run_accepts_prefix(initial_state(), views, (i + 1) as int);
                }
            }
            return false;
        }
        st.next(&tokens[i]);
        i = i + 1;
    }
    proof {
        assert(views.take(n as int) =~= views);
    }
    st.renderable()
}

/// Feeds every token to a fresh parser and renders the registrations.
pub fn add_functions(tokens: &Vec<Token>) -> (r: String)
    requires
        run_accepts(initial_state(), tokens@.map_values(|t: Token| t@)),
        can_render(run(initial_state(), tokens@.map_values(|t: Token| t@))),
    ensures
        r@ == render(run(initial_state(), tokens@.map_values(|t: Token| t@))),
{
    let ghost views = tokens@.map_values(|t: Token| t@);
    let mut st = AddFunctions::new();
    let n = tokens.len();
    let mut i: usize = 0;
    while i < n
        invariant
            n == tokens.len(),
            0 <= i <= n,
            views == tokens@.map_values(|t: Token| t@),
            run_accepts(initial_state(), views),
            st@ == run(initial_state(), views.take(i as int)),
        decreases n - i,
    {
        proof {
            lemma_run_accepts_prefix(initial_state(), views, (i + 1) as int);
            assert(views.take((i + 1) as int).drop_last() =~= views.take(i as int));
            assert(views.take((i + 1) as int).last() == tokens[i as int]@);
        }
        st.next(&tokens[i]);
        i = i + 1;
    }
    proof {
        assert(views.take(n as int) =~= views);
    }
    st.stream()
}

/// Every prefix of an accepted token sequence is accepted.
pub proof fn lemma_run_accepts_prefix(s: AddFunctionsView, ts: Seq<TokenView>, k: int)
    requires
        run_accepts(s, ts),
        0 <= k <= ts.len(),
    ensures
        run_accepts(s, ts.take(k)),
    decreases ts.len(),
{
    if k < ts.len() {
        assert(ts.drop_last().take(k) =~= ts.take(k));
        lemma_run_accepts_prefix(s, ts.drop_last(), k);
    } else {
        assert(ts.take(k) =~= ts);
    }
}

/// One `[f, ...] from module` clause of the macro input: the text of the
/// group token, the texts of the tokens inside it, and the module's name.
pub struct Clause {
    pub group_text: Seq<char>,
    pub group: Seq<Seq<char>>,
    pub module: Seq<char>,
}

pub open spec fn comma_token() -> TokenView {
    TokenView { text: ","@, group: None }
}

pub open spec fn from_token() -> TokenView {
    TokenView { text: "from"@, group: None }
}

/// The tokens of `pm, [..] from m1, [..] from m2, ..., [..] from mn`.
pub open spec fn grammar_tokens(pm: Seq<char>, clauses: Seq<Clause>) -> Seq<TokenView>
    decreases clauses.len(),
{
    if clauses.len() == 0 {
        seq![TokenView { text: pm, group: None }]
    } else {
        let c = clauses.last();
        grammar_tokens(pm, clauses.drop_last()) + seq![
            comma_token(),
            TokenView { text: c.group_text, group: Some(c.group) },
            from_token(),
            TokenView { text: c.module, group: None },
        ]
    }
}

/// The state that a well-formed macro input leaves: every clause became a
/// named module whose functions are the group's entries without commas.
pub open spec fn grammar_state(pm: Seq<char>, clauses: Seq<Clause>) -> AddFunctionsView {
    AddFunctionsView {
        py_module_name: Some(pm),
        modules: clauses.map_values(
            |c: Clause| ModuleView { module_name: Some(c.module), functions: drop_commas(c.group) },
        ),
        idx: 1,
    }
}

/// Law: the documented input `pm, [fs] from m, ...` is accepted token by
/// token, with or without a trailing comma; it leaves one named module per
/// clause, in order, holding that clause's functions; and it can be rendered.
pub proof fn lemma_add_functions_grammar(pm: Seq<char>, clauses: Seq<Clause>)
    ensures
        run_accepts(initial_state(), grammar_tokens(pm, clauses)),
        run(initial_state(), grammar_tokens(pm, clauses)) == grammar_state(pm, clauses),
        run_accepts(initial_state(), grammar_tokens(pm, clauses).push(comma_token())),
        run(initial_state(), grammar_tokens(pm, clauses).push(comma_token())) == (AddFunctionsView {
            idx: 2,
            ..grammar_state(pm, clauses)
        }),
        can_render(grammar_state(pm, clauses)),
    decreases clauses.len(),
{
    let toks = grammar_tokens(pm, clauses);
    if clauses.len() == 0 {
        assert(toks.drop_last() =~= Seq::<TokenView>::empty());
        assert(run(initial_state(), toks.drop_last()) == initial_state());
        assert(run_accepts(initial_state(), toks.drop_last()));
        assert(run_accepts(initial_state(), toks));
        assert(grammar_state(pm, clauses).modules =~= Seq::<ModuleView>::empty());
        assert(run(initial_state(), toks) == grammar_state(pm, clauses));
        assert(toks.push(comma_token()).drop_last() =~= toks);
    } else {
        let prev = clauses.drop_last();
        lemma_add_functions_grammar(pm, prev);
        let c = clauses.last();
        let t0 = grammar_tokens(pm, prev);
        let g = TokenView { text: c.group_text, group: Some(c.group) };
        let m = TokenView { text: c.module, group: None };
        let t1 = t0.push(comma_token());
        let t2 = t1.push(g);
        let t3 = t2.push(from_token());
        assert(toks =~= t3.push(m));
        assert(t3.drop_last() =~= t2);
        assert(t2.drop_last() =~= t1);
        assert(t1.drop_last() =~= t0);
        assert(toks.drop_last() =~= t3);
        let s0 = grammar_state(pm, prev);
        assert(run(initial_state(), t1) == step(s0, comma_token()));
        assert(run_accepts(initial_state(), t1));
        let s1 = step(s0, comma_token());
        assert(run(initial_state(), t2) == step(s1, g));
        assert(run_accepts(initial_state(), t2));
        let s2 = step(s1, g);
        assert(run(initial_state(), t3) == step(s2, from_token()));
        assert(run_accepts(initial_state(), t3));
        let s3 = step(s2, from_token());
        assert(s3.modules.len() > 0);
        assert(run(initial_state(), toks) == step(s3, m));
        assert(run_accepts(initial_state(), toks));
        let s4 = step(s3, m);
        assert(s4.modules =~= grammar_state(pm, clauses).modules);
        assert(s4 == grammar_state(pm, clauses));
        assert(toks.push(comma_token()).drop_last() =~= toks);
    }
    let st = grammar_state(pm, clauses);
    assert(toks.push(comma_token()).drop_last() =~= toks);
    assert(accepts(st, comma_token()));
    assert(run_accepts(initial_state(), toks.push(comma_token())));
    assert forall|i: int|
        0 <= i < st.modules.len() && #[trigger] st.modules[i].functions.len() > 0 implies (
        st.modules[i].module_name is Some && st.py_module_name is Some) by {}
}

/// The states that the parser can reach from `new`.
pub open spec fn reachable_shape(s: AddFunctionsView) -> bool {
    &&& 0 <= s.idx <= 4
    &&& (s.idx == 0 <==> s.py_module_name is None)
    &&& s.idx == 0 ==> s.modules.len() == 0
    &&& s.idx >= 3 ==> s.modules.len() >= 1
}

/// Law: every accepted token keeps the parser in a reachable shape, moves it
/// one step round the cycle 0, 1, 2, 3, 4, 1, 2, ..., and adds a module
/// exactly at a group.
pub proof fn lemma_step_keeps_shape(s: AddFunctionsView, t: TokenView)
    requires
        reachable_shape(s),
        accepts(s, t),
    ensures
        reachable_shape(step(s, t)),
        step(s, t).idx == (if s.idx == 4 { 1 } else { s.idx + 1 }),
        step(s, t).modules.len() == s.modules.len() + (if s.idx == 2 { 1int } else { 0int }),
{
}

/// Law: in a reachable state at step 4, any token is accepted as the name of
/// the module.
pub proof fn lemma_any_module_name_accepted(s: AddFunctionsView, t: TokenView)
    requires
        reachable_shape(s),
        s.idx == 4,
    ensures
        accepts(s, t),
{
}

/// Law: the initial state has the reachable shape, and so has every state
/// that an accepted token sequence leads to.
pub proof fn lemma_run_keeps_shape(ts: Seq<TokenView>)
    requires
        run_accepts(initial_state(), ts),
    ensures
        reachable_shape(run(initial_state(), ts)),
    decreases ts.len(),
{
    if ts.len() > 0 {
        lemma_run_keeps_shape(ts.drop_last());
        lemma_step_keeps_shape(run(initial_state(), ts.drop_last()), ts.last());
    }
}

/// Law: `add_functions!(pm, [f] from m)` registers `f` of module `m` in the
/// Python module named by the first token, which is both the receiver and
/// the `PyModule` argument:
/// `pm.add_function(m::__pyo3_get_function_f(PyFunctionArguments::PyModule(pm))?)?;`.
pub proof fn lemma_single_registration(
    pm: Seq<char>,
    m: Seq<char>,
    f: Seq<char>,
    group_text: Seq<char>,
)
    requires
        f != ","@,
    ensures
        ({
            let toks = seq![
                TokenView { text: pm, group: None },
                comma_token(),
                TokenView { text: group_text, group: Some(seq![f]) },
                from_token(),
                TokenView { text: m, group: None },
            ];
            &&& run_accepts(initial_state(), toks)
            &&& can_render(run(initial_state(), toks))
            &&& render(run(initial_state(), toks)) == pm + ".add_function("@ + m
                + "::__pyo3_get_function_"@ + f + "(PyFunctionArguments::PyModule("@ + pm
                + "))?)?;"@
        }),
{
    let clause = Clause { group_text, group: seq![f], module: m };
    let clauses = seq![clause];
    lemma_add_functions_grammar(pm, clauses);
    let toks = seq![
        TokenView { text: pm, group: None },
        comma_token(),
        TokenView { text: group_text, group: Some(seq![f]) },
        from_token(),
        TokenView { text: m, group: None },
    ];
    assert(clauses.drop_last() =~= Seq::<Clause>::empty());
    assert(grammar_tokens(pm, clauses.drop_last()) =~= seq![TokenView { text: pm, group: None }]);
    assert(grammar_tokens(pm, clauses) =~= toks);
    let st = grammar_state(pm, clauses);
    let g = seq![f];
    assert(g.drop_last() =~= Seq::<Seq<char>>::empty());
    assert(drop_commas(g.drop_last()) =~= Seq::<Seq<char>>::empty());
    assert(drop_commas(g) =~= g);
    let module = ModuleView { module_name: Some(m), functions: g };
    assert(st.modules =~= seq![module]);
    assert(st.modules.drop_last() =~= Seq::<ModuleView>::empty());
    let lines = registration_lines(pm, st.modules);
    assert(registration_lines(pm, st.modules.drop_last()) =~= Seq::<Seq<char>>::empty());
    assert(lines =~= seq![registration_line(pm, m, f)]);
}

/// The registrations that the clauses ask for, in order: for each clause,
/// each entry of its group other than `,`.
pub open spec fn requested_registrations(pm: Seq<char>, clauses: Seq<Clause>) -> Seq<Seq<char>>
    decreases clauses.len(),
{
    if clauses.len() == 0 {
        Seq::empty()
    } else {
        let c = clauses.last();
        requested_registrations(pm, clauses.drop_last()) + c.group.filter(
            |x: Seq<char>| x != ","@,
        ).map_values(
            |f: Seq<char>|
                pm + ".add_function("@ + c.module + "::__pyo3_get_function_"@ + f
                    + "(PyFunctionArguments::PyModule("@ + pm + "))?)?;"@,
        )
    }
}

proof fn lemma_registration_lines_of_clauses(pm: Seq<char>, clauses: Seq<Clause>)
    ensures
        registration_lines(pm, grammar_state(pm, clauses).modules) == requested_registrations(
            pm,
            clauses,
        ),
    decreases clauses.len(),
{
    if clauses.len() > 0 {
        let prev = clauses.drop_last();
        lemma_registration_lines_of_clauses(pm, prev);
        let c = clauses.last();
        lemma_drop_commas_is_filter(c.group);
        let mods = grammar_state(pm, clauses).modules;
        assert(mods.drop_last() =~= grammar_state(pm, prev).modules);
        assert(mods.last().functions == c.group.filter(|x: Seq<char>| x != ","@));
        assert(mods.last().module_name == Some(c.module));
        assert(mods.last().functions.map_values(
            |f: Seq<char>| registration_line(pm, mods.last().module_name.unwrap(), f),
        ) =~= c.group.filter(|x: Seq<char>| x != ","@).map_values(
            |f: Seq<char>|
                pm + ".add_function("@ + c.module + "::__pyo3_get_function_"@ + f
                    + "(PyFunctionArguments::PyModule("@ + pm + "))?)?;"@,
        ));
    }
}

/// Law: for the documented input `pm, [f, ...] from m, ...`, `add_functions` gives, one per line and in order, a
/// registration `pm.add_function(m::__pyo3_get_function_f(PyFunctionArguments::PyModule(pm))?)?;`
/// for each function `f` of each clause (each entry of its group other than
/// `,`), with `m` the module of that clause.
pub proof fn lemma_registrations_follow_clauses(pm: Seq<char>, clauses: Seq<Clause>)
    ensures
        run_accepts(initial_state(), grammar_tokens(pm, clauses)),
        can_render(run(initial_state(), grammar_tokens(pm, clauses))),
        render(run(initial_state(), grammar_tokens(pm, clauses))) == spec_join(
            requested_registrations(pm, clauses),
            "\n"@,
        ),
{
    lemma_add_functions_grammar(pm, clauses);
    lemma_registration_lines_of_clauses(pm, clauses);
}

/// Law: the functions of a group are its entries other than `,`, in their
/// order: exactly the entries that the filter "is not a comma" keeps.
pub proof fn lemma_drop_commas_is_filter(g: Seq<Seq<char>>)
    ensures
        drop_commas(g) == g.filter(|x: Seq<char>| x != ","@),
        forall|k: int| 0 <= k < drop_commas(g).len() ==> #[trigger] drop_commas(g)[k] != ","@,
    decreases g.len(),
{
    reveal(Seq::filter);
    if g.len() > 0 {
        lemma_drop_commas_is_filter(g.drop_last());
    }
    let pred = |x: Seq<char>| x != ","@;
    assert forall|k: int| 0 <= k < drop_commas(g).len() implies #[trigger] drop_commas(g)[k]
        != ","@ by {
        g.lemma_filter_pred(pred, k);
    }
}

/// Law: a token out of place is refused: anything but `,` after the module
/// name and after each clause, anything but a group where the functions are
/// expected, and anything but `from` after them.
pub proof fn lemma_misplaced_tokens_refused(s: AddFunctionsView, t: TokenView)
    ensures
        s.idx == 1 && t.text != ","@ ==> !accepts(s, t),
        s.idx == 2 && t.group is None ==> !accepts(s, t),
        s.idx == 3 && t.text != "from"@ ==> !accepts(s, t),
        !(0 <= s.idx <= 4) ==> !accepts(s, t),
{
}

} // verus!
