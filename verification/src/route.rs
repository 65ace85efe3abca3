//! Routes and their guards.
//!
//! The dispatch layer that matches incoming connections against routes keeps,
//! for every route, which of its parameters are plain path or query segments
//! and which are guards: inputs the handler takes that must be produced by a
//! validating extractor before the handler runs. A route's full guard list is
//! its path guards, then its query guards, then its request guards.

use vstd::prelude::*;

verus! {

/// One guard: a handler input produced by a validating extractor, known here
/// by the parameter name it binds. Its view is that name.
pub struct Guard {
    pub name: String,
}

impl DeepView for Guard {
    type V = Seq<char>;

    open spec fn deep_view(&self) -> Seq<char> {
        self.name@
    }
}

impl Guard {
    /// A new guard binding `name`.
    pub fn new(name: String) -> (g: Guard)
        ensures
            g.deep_view() == name@,
    {
        Guard { name }
    }

    /// An owned copy of this guard.
    pub fn duplicate(&self) -> (g: Guard)
        ensures
            g.deep_view() == self.deep_view(),
    {
        Guard { name: self.name.clone() }
    }
}

/// The mathematical value of a route parameter: either a static segment or a
/// guarded one, each carrying its name.
pub ghost enum ParamView {
    Static(Seq<char>),
    Guarded(Seq<char>),
}

/// One declared parameter of a route: a static segment matched literally, or
/// a dynamic segment bound through a guard.
pub enum Param {
    Static(String),
    Guarded(Guard),
}

impl DeepView for Param {
    type V = ParamView;

    open spec fn deep_view(&self) -> ParamView {
        match self {
            Param::Static(s) => ParamView::Static(s@),
            Param::Guarded(g) => ParamView::Guarded(g.deep_view()),
        }
    }
}

impl Param {
    /// The guard of a dynamic parameter; a static segment has none.
    pub fn guard(&self) -> (g: Option<&Guard>)
        ensures
            match g {
                Some(guard) => self.deep_view() == ParamView::Guarded(guard.deep_view()),
                None => self.deep_view() is Static,
            },
    {
        match self {
            Param::Static(_) => None,
            Param::Guarded(g) => Some(g),
        }
    }
}

/// The guard names of a parameter list, in declaration order: one per guarded
/// parameter, static segments contributing nothing.
pub open spec fn guards_of(params: Seq<ParamView>) -> Seq<Seq<char>>
    decreases params.len(),
{
    if params.len() == 0 {
        Seq::empty()
    } else {
        guards_of(params.drop_last()) + match params.last() {
            ParamView::Guarded(n) => seq![n],
            ParamView::Static(_) => Seq::empty(),
        }
    }
}

/// Extending a parameter list extends its guard list by the new parameter's
/// guard, if it has one.
pub proof fn lemma_guards_of_push(params: Seq<ParamView>, p: ParamView)
    ensures
        guards_of(params.push(p)) == guards_of(params) + match p {
            ParamView::Guarded(n) => seq![n],
            ParamView::Static(_) => Seq::<Seq<char>>::empty(),
        },
{
    assert(params.push(p).drop_last() =~= params);
}

/// The guards of `params`, in order.
fn collect_guards(params: &Vec<Param>) -> (r: Vec<Guard>)
    ensures
        r.deep_view() == guards_of(params.deep_view()),
{
    let ghost ps = params.deep_view();
    let mut r: Vec<Guard> = Vec::new();
    let mut i: usize = 0;
    while i < params.len()
        invariant
            i <= params@.len(),
            ps == params.deep_view(),
            params@.len() == ps.len(),
            r.deep_view() == guards_of(ps.subrange(0, i as int)),
        decreases params@.len() - i,
    {
        let ghost pre = r.deep_view();
        if let Some(g) = params[i].guard() {
            r.push(g.duplicate());
            proof {
                assert(r.deep_view() =~= pre.push(g.deep_view()));
                assert(pre.push(g.deep_view()) =~= pre + seq![g.deep_view()]);
            }
        }
        proof {
            lemma_guards_of_push(ps.subrange(0, i as int), ps[i as int]);
            assert(ps.subrange(0, i + 1) =~= ps.subrange(0, i as int).push(ps[i as int]));
            if ps[i as int] is Static {
                assert(r.deep_view() =~= pre + Seq::<Seq<char>>::empty());
            }
        }
        i += 1;
    }
    proof {
        assert(ps.subrange(0, ps.len() as int) =~= ps);
    }
    r
}

/// Copies of `guards`, in order.
fn copy_guards(guards: &Vec<Guard>) -> (r: Vec<Guard>)
    ensures
        r.deep_view() == guards.deep_view(),
{
    let ghost gs = guards.deep_view();
    let mut r: Vec<Guard> = Vec::new();
    let mut i: usize = 0;
    while i < guards.len()
        invariant
            i <= guards@.len(),
            gs == guards.deep_view(),
            guards@.len() == gs.len(),
            r.deep_view() == gs.subrange(0, i as int),
        decreases guards@.len() - i,
    {
        let ghost pre = r.deep_view();
        let g = guards[i].duplicate();
        proof {
            assert(g.deep_view() == gs[i as int]);
        }
        r.push(g);
        proof {
            assert(r.deep_view() =~= pre.push(gs[i as int]));
            assert(pre.push(gs[i as int]) =~= gs.subrange(0, i + 1));
        }
        i += 1;
    }
    proof {
        assert(gs.subrange(0, gs.len() as int) =~= gs);
    }
    r
}

/// An ordinary route: its declared path and query parameters and its request
/// guards.
pub struct Route {
    pub path_params: Vec<Param>,
    pub query_params: Vec<Param>,
    pub request_guards: Vec<Guard>,
}

impl Route {
    /// Every guard of the route: path guards, then query guards, then request
    /// guards.
    pub fn guards(&self) -> (r: Vec<Guard>)
        ensures
            r.deep_view() == guards_of(self.path_params.deep_view()) + guards_of(
                self.query_params.deep_view(),
            ) + self.request_guards.deep_view(),
    {
        let mut r = self.param_guards();
        let mut q = self.query_guards();
        r.append(&mut q);
        let mut rest = copy_guards(&self.request_guards);
        r.append(&mut rest);
        proof {
            assert(r.deep_view() =~= guards_of(self.path_params.deep_view()) + guards_of(
                self.query_params.deep_view(),
            ) + self.request_guards.deep_view());
        }
        r
    }

    /// The guards of the route's dynamic path parameters, in order.
    pub fn param_guards(&self) -> (r: Vec<Guard>)
        ensures
            r.deep_view() == guards_of(self.path_params.deep_view()),
    {
        collect_guards(&self.path_params)
    }

    /// The guards of the route's dynamic query parameters, in order.
    pub fn query_guards(&self) -> (r: Vec<Guard>)
        ensures
            r.deep_view() == guards_of(self.query_params.deep_view()),
    {
        collect_guards(&self.query_params)
    }
}

/// A route reached by a connection upgrade rather than a plain request; its
/// parameters and guards are declared the same way.
pub struct WebSocketRoute {
    pub path_params: Vec<Param>,
    pub query_params: Vec<Param>,
    pub request_guards: Vec<Guard>,
}

impl WebSocketRoute {
    /// Every guard of the route: path guards, then query guards, then request
    /// guards.
    pub fn guards(&self) -> (r: Vec<Guard>)
        ensures
            r.deep_view() == guards_of(self.path_params.deep_view()) + guards_of(
                self.query_params.deep_view(),
            ) + self.request_guards.deep_view(),
    {
        let mut r = self.param_guards();
        let mut q = self.query_guards();
        r.append(&mut q);
        let mut rest = copy_guards(&self.request_guards);
        r.append(&mut rest);
        proof {
            assert(r.deep_view() =~= guards_of(self.path_params.deep_view()) + guards_of(
                self.query_params.deep_view(),
            ) + self.request_guards.deep_view());
        }
        r
    }

    /// The guards of the route's dynamic path parameters, in order.
    pub fn param_guards(&self) -> (r: Vec<Guard>)
        ensures
            r.deep_view() == guards_of(self.path_params.deep_view()),
    {
        collect_guards(&self.path_params)
    }

    /// The guards of the route's dynamic query parameters, in order.
    pub fn query_guards(&self) -> (r: Vec<Guard>)
        ensures
            r.deep_view() == guards_of(self.query_params.deep_view()),
    {
        collect_guards(&self.query_params)
    }
}

} // verus!
