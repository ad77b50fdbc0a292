//! The DOM API's node logic: which nodes a query filter selects, and what an
//! update of a node from its script description does.

use vstd::prelude::*;
use crate::text::{chars_eq, chars_of, split_chars, split_seq, str_eq};

verus! {

/// A node of a parsed document, by what the DOM API reads of it.
#[derive(Debug, Clone)]
pub enum DomNode {
    /// An element: its local name and its attributes (local name, value).
    Element { name: String, attrs: Vec<(String, String)> },
    /// A text node.
    Text { contents: String },
    /// Any other node (document, comment, doctype, processing instruction).
    Other,
}

/// A query filter over nodes.
pub enum FilterExpr {
    And { left: Box<FilterExpr>, right: Box<FilterExpr> },
    Or { left: Box<FilterExpr>, right: Box<FilterExpr> },
    /// An element with this local name.
    Tag { tag: String },
    /// An element with this class.
    HasClass { class_name: String },
    /// A text node.
    Text,
    True,
    False,
}

/// Whether a class attribute's value lists a class: its non-empty parts
/// between spaces include it.
pub open spec fn lists_class(value: Seq<char>, class: Seq<char>) -> bool {
    exists|i: int| 0 <= i < split_seq(value, ' ').len() && #[trigger] split_seq(value, ' ')[i] == class && class.len() > 0
}

/// Whether an element's attributes give it a class: some `class` attribute
/// lists it.
pub open spec fn has_class(attrs: Seq<(String, String)>, class: Seq<char>) -> bool {
    exists|i: int| 0 <= i < attrs.len() && (#[trigger] attrs[i]).0@ == "class"@ && lists_class(attrs[i].1@, class)
}

/// Whether a filter selects a node.
pub open spec fn spec_eval(f: FilterExpr, node: DomNode) -> bool
    decreases f,
{
    match f {
        FilterExpr::And { left, right } => spec_eval(*left, node) && spec_eval(*right, node),
        FilterExpr::Or { left, right } => spec_eval(*left, node) || spec_eval(*right, node),
        FilterExpr::Tag { tag } => node matches DomNode::Element { name, .. } && name@ == tag@,
        FilterExpr::HasClass { class_name } => node matches DomNode::Element { attrs, .. } && has_class(
            attrs@,
            class_name@,
        ),
        FilterExpr::Text => node is Text,
        FilterExpr::True => true,
        FilterExpr::False => false,
    }
}

/// Whether a class attribute's value lists a class.
fn value_lists_class(value: &str, class: &str) -> (res: bool)
    ensures
        res == lists_class(value@, class@),
{
    let c = chars_of(class);
    if c.len() == 0 {
        return false;
    }
    let v = chars_of(value);
    let parts = split_chars(v.as_slice(), ' ');
    let ghost sp = split_seq(value@, ' ');
    let mut i: usize = 0;
    while i < parts.len()
        invariant
            i <= parts.len(),
            parts@.len() == sp.len(),
            sp == split_seq(value@, ' '),
            c@ == class@,
            c@.len() > 0,
            forall|j: int| 0 <= j < parts@.len() ==> #[trigger] parts@[j]@ == sp[j],
            forall|j: int| 0 <= j < i ==> sp[j] != class@,
        decreases parts.len() - i,
    {
        if chars_eq(parts[i].as_slice(), c.as_slice()) {
            proof {
                assert(sp[i as int] == class@);
            }
            return true;
        }
        i += 1;
    }
    false
}

/// Whether attributes give an element a class.
fn attrs_have_class(attrs: &Vec<(String, String)>, class: &str) -> (res: bool)
    ensures
        res == has_class(attrs@, class@),
{
    let mut i: usize = 0;
    while i < attrs.len()
        invariant
            i <= attrs.len(),
            forall|j: int| 0 <= j < i ==> !((#[trigger] attrs@[j]).0@ == "class"@ && lists_class(attrs@[j].1@, class@)),
        decreases attrs.len() - i,
    {
        if str_eq(attrs[i].0.as_str(), "class") && value_lists_class(attrs[i].1.as_str(), class) {
            proof {
                assert(attrs@[i as int].0@ == "class"@);
            }
            return true;
        }
        i += 1;
    }
    false
}

impl FilterExpr {
    /// Whether the filter selects the node: `tag` an element of that local
    /// name, `hasClass` an element whose `class` attribute lists the class,
    /// `text` a text node; `and`, `or`, `true` and `false` as in logic.
    pub fn eval(&self, node: &DomNode) -> (res: bool)
        ensures
            res == spec_eval(*self, *node),
        decreases self,
    {
        match self {
            FilterExpr::And { left, right } => left.eval(node) && right.eval(node),
            FilterExpr::Or { left, right } => left.eval(node) || right.eval(node),
            FilterExpr::Tag { tag } => match node {
                DomNode::Element { name, .. } => str_eq(name.as_str(), tag.as_str()),
                _ => false,
            },
            FilterExpr::HasClass { class_name } => match node {
                DomNode::Element { attrs, .. } => attrs_have_class(attrs, class_name.as_str()),
                _ => false,
            },
            FilterExpr::Text => match node {
                DomNode::Text { .. } => true,
                _ => false,
            },
            FilterExpr::True => true,
            FilterExpr::False => false,
        }
    }
}

/// An attribute as a script describes it.
#[derive(Debug, Clone)]
pub struct JsElemAttr {
    pub name: String,
    pub value: String,
}

/// A node as a script describes it.
#[derive(Debug, Clone)]
pub enum JsNodeData {
    Text { text: String },
    Element { name: String, attrs: Vec<JsElemAttr> },
    Other,
}

/// Why a node cannot be updated from a script's description.
#[derive(Debug, Clone, Copy, PartialEq, Eq, Structural)]
pub enum DomUpdateError {
    /// The description renames an element.
    CannotRenameElement,
    /// The description is of another kind of node.
    KindMismatch,
}

/// What an update does to a node.
pub enum DomUpdate {
    /// Replace a text node's contents.
    SetText(String),
    /// Replace an element's attributes.
    SetAttrs(Vec<JsElemAttr>),
}

/// What an update from a description does, by the kinds of the description
/// and the node: text replaces text; an element's attributes are replaced
/// when the description keeps its name; anything else is refused.
pub open spec fn spec_update(js: JsNodeData, node: DomNode) -> Result<DomUpdate, DomUpdateError> {
    match (js, node) {
        (JsNodeData::Text { text }, DomNode::Text { .. }) => Ok(DomUpdate::SetText(text)),
        (JsNodeData::Element { name: js_name, attrs }, DomNode::Element { name, .. }) => if name@ != js_name@ {
            Err(DomUpdateError::CannotRenameElement)
        } else {
            Ok(DomUpdate::SetAttrs(attrs))
        },
        _ => Err(DomUpdateError::KindMismatch),
    }
}

/// The update that a script's description of a node asks for.
pub fn node_update(js: JsNodeData, node: &DomNode) -> (res: Result<DomUpdate, DomUpdateError>)
    ensures
        res == spec_update(js, *node),
{
    match (js, node) {
        (JsNodeData::Text { text }, DomNode::Text { .. }) => Ok(DomUpdate::SetText(text)),
        (JsNodeData::Element { name: js_name, attrs }, DomNode::Element { name, .. }) => {
            if !str_eq(name.as_str(), js_name.as_str()) {
                Err(DomUpdateError::CannotRenameElement)
            } else {
                Ok(DomUpdate::SetAttrs(attrs))
            }
        },
        _ => Err(DomUpdateError::KindMismatch),
    }
}

/// The description of an attribute list.
pub open spec fn attrs_described(attrs: Seq<(String, String)>, js: Seq<JsElemAttr>) -> bool {
    &&& js.len() == attrs.len()
    &&& forall|i: int| 0 <= i < js.len() ==> (#[trigger] js[i]).name@ == attrs[i].0@ && js[i].value@ == attrs[i].1@
}

/// Describes a node for a script: an element by its name and attributes, a
/// text node by its contents, any other node as `Other`.
pub fn js_node_data(node: &DomNode) -> (res: JsNodeData)
    ensures
        match *node {
            DomNode::Element { name, attrs } => res matches JsNodeData::Element { name: n, attrs: a } && n@ == name@
                && attrs_described(attrs@, a@),
            DomNode::Text { contents } => res matches JsNodeData::Text { text } && text@ == contents@,
            DomNode::Other => res is Other,
        },
{
    match node {
        DomNode::Element { name, attrs } => {
            let mut out: Vec<JsElemAttr> = Vec::new();
            let mut i: usize = 0;
            while i < attrs.len()
                invariant
                    i <= attrs@.len(),
                    attrs_described(attrs@.take(i as int), out@),
                decreases attrs@.len() - i,
            {
                out.push(JsElemAttr { name: attrs[i].0.clone(), value: attrs[i].1.clone() });
                i += 1;
            }
            proof {
                assert(attrs@.take(attrs@.len() as int) =~= attrs@);
            }
            JsNodeData::Element { name: name.clone(), attrs: out }
        },
        DomNode::Text { contents } => JsNodeData::Text { text: contents.clone() },
        DomNode::Other => JsNodeData::Other,
    }
}

/// A document as a tree of nodes in an arena: node `i` is `nodes[i]`, and
/// `children[i]` lists its children in document order.
pub struct DomTree {
    pub nodes: Vec<DomNode>,
    pub children: Vec<Vec<usize>>,
}

impl DomTree {
    /// Every node has its list of children, and every child is a node.
    pub open spec fn wf(&self) -> bool {
        &&& self.nodes@.len() == self.children@.len()
        &&& forall|i: int, j: int|
            0 <= i < self.children@.len() && 0 <= j < self.children@[i]@.len() ==> (#[trigger] self.children@[i]@[j])
                < self.nodes@.len()
    }
}

/// Where a filtered walk over a tree stands: the nodes still to visit (the
/// next one last), the node whose callback runs, if any, and whether the walk
/// is over.
#[derive(Debug, Clone)]
pub struct WalkState {
    pub pending: Vec<usize>,
    pub awaiting: Option<usize>,
    pub finished: bool,
}

/// What the caller reports back to the walk.
#[derive(Debug, Clone, Copy, PartialEq, Eq, Structural)]
pub enum WalkEvent {
    /// Go on.
    Proceed,
    /// The callback returned; `true` (or no boolean) asks to walk the node's
    /// children too.
    Returned(bool),
    /// The callback threw.
    Threw,
}

/// What the walk asks of the caller.
#[derive(Debug, Clone, Copy, PartialEq, Eq, Structural)]
pub enum WalkAction {
    /// Call the callback on this node, and report how it ended.
    Call(usize),
    /// Nothing to do: report `Proceed`.
    Continue,
    /// The walk is over: `true` when no callback threw.
    Done(bool),
    /// The event does not fit the state; nothing to do.
    Ignore,
}

/// The children of a node in reverse, so that the first one is visited next.
pub open spec fn reversed_children(t: DomTree, n: int) -> Seq<usize> {
    t.children@[n]@.reverse()
}

/// One step of a filtered walk over a tree, in document order (a node before
/// its children, children in order): the next state and action for an event.
/// A node that the filter selects gets the callback, and its children are
/// walked only when the callback asks for it; the walk ends when a callback
/// throws or no node is left.
pub open spec fn spec_walk_step(f: FilterExpr, t: DomTree, st: WalkState, ev: WalkEvent, next: WalkState, act: WalkAction) -> bool {
    if st.finished {
        next == st && act is Ignore
    } else {
        match st.awaiting {
            None => if ev is Proceed {
                if st.pending@.len() == 0 {
                    next.pending@ == st.pending@ && next.awaiting is None && next.finished && act == WalkAction::Done(true)
                } else {
                    let n = st.pending@.last() as int;
                    let rest = st.pending@.drop_last();
                    if spec_eval(f, t.nodes@[n]) {
                        next.pending@ == rest && next.awaiting == Some(n as usize) && !next.finished && act
                            == WalkAction::Call(n as usize)
                    } else {
                        next.pending@ == rest + reversed_children(t, n) && next.awaiting is None && !next.finished
                            && act is Continue
                    }
                }
            } else {
                next == st && act is Ignore
            },
            Some(n) => match ev {
                WalkEvent::Returned(descend) => {
                    &&& next.pending@ == if descend {
                        st.pending@ + reversed_children(t, n as int)
                    } else {
                        st.pending@
                    }
                    &&& next.awaiting is None
                    &&& !next.finished
                    &&& act is Continue
                },
                WalkEvent::Threw => next.pending@ == st.pending@ && next.awaiting is None && next.finished && act
                    == WalkAction::Done(false),
                WalkEvent::Proceed => next == st && act is Ignore,
            },
        }
    }
}

/// Whether every node that a walk state names is a node of the tree.
pub open spec fn walk_state_fits(t: DomTree, st: WalkState) -> bool {
    &&& forall|i: int| 0 <= i < st.pending@.len() ==> (#[trigger] st.pending@[i]) < t.nodes@.len()
    &&& st.awaiting matches Some(n) ==> n < t.nodes@.len()
}

/// The start of a walk from a node.
pub fn walk_start(root: usize) -> (res: WalkState)
    ensures
        res.pending@ == seq![root],
        res.awaiting is None,
        !res.finished,
{
    let mut pending: Vec<usize> = Vec::new();
    pending.push(root);
    WalkState { pending, awaiting: None, finished: false }
}

/// `pending` with the children of node `n` pushed, last child first.
fn push_children(t: &DomTree, n: usize, pending: &mut Vec<usize>)
    requires
        t.wf(),
        n < t.nodes@.len(),
    ensures
        final(pending)@ == old(pending)@ + reversed_children(*t, n as int),
{
    let kids = &t.children[n];
    let mut k: usize = kids.len();
    while k > 0
        invariant
            k <= kids@.len(),
            kids@ == t.children@[n as int]@,
            pending@ == old(pending)@ + kids@.subrange(k as int, kids@.len() as int).reverse(),
        decreases k,
    {
        k = k - 1;
        let ghost before = pending@;
        pending.push(kids[k]);
        proof {
            assert(kids@.subrange(k as int, kids@.len() as int).reverse() =~= kids@.subrange(
                k + 1,
                kids@.len() as int,
            ).reverse().push(kids@[k as int]));
        }
    }
    proof {
        assert(kids@.subrange(0, kids@.len() as int) =~= kids@);
    }
}

/// The decisions of a filtered walk over a tree, one event at a time (see
/// `spec_walk_step`); a state whose nodes are nodes of the tree leads to one
/// whose nodes are too.
pub fn walk_step(f: &FilterExpr, t: &DomTree, st: WalkState, ev: WalkEvent) -> (res: (WalkState, WalkAction))
    requires
        t.wf(),
        walk_state_fits(*t, st),
    ensures
        spec_walk_step(*f, *t, st, ev, res.0, res.1),
        walk_state_fits(*t, res.0),
{
    if st.finished {
        return (st, WalkAction::Ignore);
    }
    let ghost st0 = st;
    match st.awaiting {
        None => {
            match ev {
                WalkEvent::Proceed => {},
                _ => return (st, WalkAction::Ignore),
            }
            let mut pending = st.pending;
            match pending.pop() {
                None => (WalkState { pending, awaiting: None, finished: true }, WalkAction::Done(true)),
                Some(n) => {
                    assert(n == st0.pending@.last());
                    if f.eval(&t.nodes[n]) {
                        (WalkState { pending, awaiting: Some(n), finished: false }, WalkAction::Call(n))
                    } else {
                        push_children(t, n, &mut pending);
                        (WalkState { pending, awaiting: None, finished: false }, WalkAction::Continue)
                    }
                },
            }
        },
        Some(n) => match ev {
            WalkEvent::Returned(descend) => {
                let mut pending = st.pending;
                if descend {
                    push_children(t, n, &mut pending);
                }
                (WalkState { pending, awaiting: None, finished: false }, WalkAction::Continue)
            },
            WalkEvent::Threw => (WalkState { pending: st.pending, awaiting: None, finished: true }, WalkAction::Done(
                false,
            )),
            WalkEvent::Proceed => (st, WalkAction::Ignore),
        },
    }
}

impl DomTree {
    /// The arena holds a forest in document order: every child comes after
    /// its parent.
    pub open spec fn ordered(&self) -> bool {
        &&& self.wf()
        &&& forall|i: int, j: int|
            0 <= i < self.children@.len() && 0 <= j < self.children@[i]@.len() ==> i < (#[trigger] self.children@[
                i
            ]@[j])
    }
}

/// The nodes that a walk goes through in the subtree at `n`, in document
/// order, when the callback on each selected node `m` asks to go below it
/// exactly when `descend(m)`: the node, then, unless it is selected and not
/// descended into, the walked subtrees of its children in order.
pub open spec fn walked_subtree(f: FilterExpr, t: DomTree, descend: spec_fn(usize) -> bool, n: int) -> Seq<usize>
    decreases t.nodes@.len() - n, t.children@[n]@.len() + 1,
{
    if 0 <= n < t.nodes@.len() && n < t.children@.len() {
        seq![n as usize] + if spec_eval(f, t.nodes@[n]) && !descend(n as usize) {
            Seq::empty()
        } else {
            walked_children(f, t, descend, n, 0)
        }
    } else {
        Seq::empty()
    }
}

/// The walked subtrees of the children of `n` from the `j`-th on, in order.
pub open spec fn walked_children(f: FilterExpr, t: DomTree, descend: spec_fn(usize) -> bool, n: int, j: int) -> Seq<
    usize,
>
    decreases t.nodes@.len() - n, t.children@[n]@.len() - j,
{
    if 0 <= n < t.nodes@.len() && n < t.children@.len() && 0 <= j < t.children@[n]@.len() {
        let c = t.children@[n]@[j] as int;
        (if n < c < t.nodes@.len() {
            walked_subtree(f, t, descend, c)
        } else {
            Seq::empty()
        }) + walked_children(f, t, descend, n, j + 1)
    } else {
        Seq::empty()
    }
}

/// The walked subtrees of a list of nodes, in order.
pub open spec fn walked_forest(f: FilterExpr, t: DomTree, descend: spec_fn(usize) -> bool, list: Seq<usize>) -> Seq<
    usize,
>
    decreases list.len(),
{
    if list.len() == 0 {
        Seq::empty()
    } else {
        walked_subtree(f, t, descend, list[0] as int) + walked_forest(f, t, descend, list.drop_first())
    }
}

/// The walked subtrees of a stack of nodes (the next one last), in the order
/// they are walked.
pub open spec fn walked_stack(f: FilterExpr, t: DomTree, descend: spec_fn(usize) -> bool, stack: Seq<usize>) -> Seq<
    usize,
>
    decreases stack.len(),
{
    if stack.len() == 0 {
        Seq::empty()
    } else {
        walked_subtree(f, t, descend, stack.last() as int) + walked_stack(f, t, descend, stack.drop_last())
    }
}

/// The nodes a walk state has yet to go through, in order: the children of
/// the node whose callback runs when it asks to go below it, then the
/// pending subtrees.
pub open spec fn walk_remaining(f: FilterExpr, t: DomTree, descend: spec_fn(usize) -> bool, st: WalkState) -> Seq<
    usize,
> {
    (match st.awaiting {
        Some(n) => if descend(n) {
            walked_forest(f, t, descend, t.children@[n as int]@)
        } else {
            Seq::empty()
        },
        None => Seq::empty(),
    }) + walked_stack(f, t, descend, st.pending@)
}

/// The nodes of a list that a filter selects.
pub open spec fn selected(f: FilterExpr, t: DomTree, s: Seq<usize>) -> Seq<usize> {
    s.filter(|n: usize| spec_eval(f, t.nodes@[n as int]))
}

/// Whether states, events and actions form a run of the walk.
pub open spec fn is_walk_run(
    f: FilterExpr,
    t: DomTree,
    states: Seq<WalkState>,
    events: Seq<WalkEvent>,
    actions: Seq<WalkAction>,
) -> bool {
    &&& states.len() == events.len() + 1
    &&& actions.len() == events.len()
    &&& forall|k: int| 0 <= k < events.len() ==> #[trigger] spec_walk_step(f, t, states[k], events[k], states[k + 1], actions[k])
}

/// Whether the events of a run are those of callbacks that never throw and
/// answer for node `n` with `descend(n)`.
pub open spec fn answers_by(states: Seq<WalkState>, events: Seq<WalkEvent>, descend: spec_fn(usize) -> bool) -> bool {
    forall|i: int|
        0 <= i < events.len() ==> match #[trigger] events[i] {
            WalkEvent::Proceed => true,
            WalkEvent::Returned(b) => states[i].awaiting matches Some(n) && b == descend(n),
            WalkEvent::Threw => false,
        }
}

/// The nodes called back in the first `k` steps of a run, in order.
pub open spec fn calls_in(actions: Seq<WalkAction>, k: int) -> Seq<usize>
    decreases k,
{
    if k <= 0 {
        Seq::empty()
    } else {
        calls_in(actions, k - 1) + match actions[k - 1] {
            WalkAction::Call(n) => seq![n],
            _ => Seq::empty(),
        }
    }
}

proof fn lemma_walked_children(f: FilterExpr, t: DomTree, descend: spec_fn(usize) -> bool, n: int, j: int)
    requires
        t.ordered(),
        0 <= n < t.nodes@.len(),
        0 <= j <= t.children@[n]@.len(),
    ensures
        walked_children(f, t, descend, n, j) == walked_forest(
            f,
            t,
            descend,
            t.children@[n]@.subrange(j, t.children@[n]@.len() as int),
        ),
    decreases t.children@[n]@.len() - j,
{
    let kids = t.children@[n]@;
    if j < kids.len() {
        lemma_walked_children(f, t, descend, n, j + 1);
        assert(kids.subrange(j, kids.len() as int).drop_first() =~= kids.subrange(j + 1, kids.len() as int));
        assert(n < kids[j] && kids[j] < t.nodes@.len());
    } else {
        assert(kids.subrange(j, kids.len() as int) =~= Seq::<usize>::empty());
    }
}

proof fn lemma_walked_subtree_unfold(f: FilterExpr, t: DomTree, descend: spec_fn(usize) -> bool, n: int)
    requires
        t.ordered(),
        0 <= n < t.nodes@.len(),
    ensures
        walked_subtree(f, t, descend, n) == seq![n as usize] + if spec_eval(f, t.nodes@[n]) && !descend(n as usize) {
            Seq::empty()
        } else {
            walked_forest(f, t, descend, t.children@[n]@)
        },
{
    lemma_walked_children(f, t, descend, n, 0);
    assert(t.children@[n]@.subrange(0, t.children@[n]@.len() as int) =~= t.children@[n]@);
}

proof fn lemma_stack_push_children(f: FilterExpr, t: DomTree, descend: spec_fn(usize) -> bool, p: Seq<usize>, kids: Seq<usize>)
    ensures
        walked_stack(f, t, descend, p + kids.reverse()) == walked_forest(f, t, descend, kids) + walked_stack(
            f,
            t,
            descend,
            p,
        ),
    decreases kids.len(),
{
    if kids.len() == 0 {
        assert(p + kids.reverse() =~= p);
        assert(walked_forest(f, t, descend, kids) =~= Seq::<usize>::empty());
        assert(Seq::<usize>::empty() + walked_stack(f, t, descend, p) =~= walked_stack(f, t, descend, p));
    } else {
        let rest = kids.drop_first();
        let head = walked_subtree(f, t, descend, kids[0] as int);
        lemma_stack_push_children(f, t, descend, p, rest);
        assert(p + kids.reverse() =~= (p + rest.reverse()).push(kids[0]));
        assert((p + kids.reverse()).drop_last() =~= p + rest.reverse());
        assert(walked_stack(f, t, descend, p + kids.reverse()) == head + walked_stack(f, t, descend, p + rest.reverse()));
        assert(walked_forest(f, t, descend, kids) == head + walked_forest(f, t, descend, rest));
        assert(head + (walked_forest(f, t, descend, rest) + walked_stack(f, t, descend, p)) =~= (head + walked_forest(
            f,
            t,
            descend,
            rest,
        )) + walked_stack(f, t, descend, p));
    }
}

proof fn lemma_selected_single(f: FilterExpr, t: DomTree, n: usize)
    ensures
        selected(f, t, seq![n]) == if spec_eval(f, t.nodes@[n as int]) {
            seq![n]
        } else {
            Seq::<usize>::empty()
        },
{
    reveal(Seq::filter);
    assert(seq![n].drop_last() =~= Seq::<usize>::empty());
    assert(selected(f, t, Seq::<usize>::empty()) =~= Seq::<usize>::empty());
    if spec_eval(f, t.nodes@[n as int]) {
        assert(selected(f, t, seq![n]) =~= seq![n]);
    } else {
        assert(selected(f, t, seq![n]) =~= Seq::<usize>::empty());
    }
}

proof fn lemma_walk_invariant(
    f: FilterExpr,
    t: DomTree,
    descend: spec_fn(usize) -> bool,
    root: usize,
    states: Seq<WalkState>,
    events: Seq<WalkEvent>,
    actions: Seq<WalkAction>,
    k: int,
)
    requires
        t.ordered(),
        root < t.nodes@.len(),
        is_walk_run(f, t, states, events, actions),
        states[0].pending@ == seq![root],
        states[0].awaiting is None,
        answers_by(states, events, descend),
        0 <= k <= events.len(),
    ensures
        walk_state_fits(t, states[k]),
        calls_in(actions, k) + selected(f, t, walk_remaining(f, t, descend, states[k])) == selected(
            f,
            t,
            walked_subtree(f, t, descend, root as int),
        ),
    decreases k,
{
    broadcast use Seq::filter_distributes_over_add;
    if k == 0 {
        assert(walked_stack(f, t, descend, seq![root]) =~= walked_subtree(f, t, descend, root as int) + walked_stack(
            f,
            t,
            descend,
            Seq::<usize>::empty(),
        )) by {
            assert(seq![root].drop_last() =~= Seq::<usize>::empty());
        }
        assert(walk_remaining(f, t, descend, states[0]) =~= walked_subtree(f, t, descend, root as int));
        assert(calls_in(actions, 0) + selected(f, t, walked_subtree(f, t, descend, root as int)) =~= selected(
            f,
            t,
            walked_subtree(f, t, descend, root as int),
        ));
    } else {
        lemma_walk_invariant(f, t, descend, root, states, events, actions, k - 1);
        let i = k - 1;
        let st = states[i];
        let nx = states[k];
        assert(spec_walk_step(f, t, states[i], events[i], states[i + 1], actions[i]));
        assert(i + 1 == k);
        let ev = events[i];
        let calls = calls_in(actions, i);
        if st.finished {
        } else {
            match st.awaiting {
                None => {
                    if ev is Proceed && st.pending@.len() > 0 {
                        let n = st.pending@.last() as int;
                        let rest = st.pending@.drop_last();
                        let kids = t.children@[n]@;
                        lemma_walked_subtree_unfold(f, t, descend, n);
                        lemma_selected_single(f, t, n as usize);
                        assert(walk_remaining(f, t, descend, st) =~= walked_stack(f, t, descend, st.pending@));
                        assert(walked_stack(f, t, descend, st.pending@) == walked_subtree(f, t, descend, n)
                            + walked_stack(f, t, descend, rest));
                        if spec_eval(f, t.nodes@[n]) {
                            assert(walk_remaining(f, t, descend, st) =~= seq![n as usize] + walk_remaining(
                                f,
                                t,
                                descend,
                                nx,
                            ));
                            assert(calls_in(actions, k) == calls + seq![n as usize]);
                            assert(calls + selected(f, t, walk_remaining(f, t, descend, st)) =~= calls_in(actions, k)
                                + selected(f, t, walk_remaining(f, t, descend, nx)));
                        } else {
                            lemma_stack_push_children(f, t, descend, rest, kids);
                            assert(walk_remaining(f, t, descend, nx) =~= walked_stack(
                                f,
                                t,
                                descend,
                                rest + reversed_children(t, n),
                            ));
                            assert(walk_remaining(f, t, descend, st) =~= seq![n as usize] + walk_remaining(
                                f,
                                t,
                                descend,
                                nx,
                            ));
                            assert(calls_in(actions, k) == calls);
                            assert(selected(f, t, walk_remaining(f, t, descend, st)) =~= selected(
                                f,
                                t,
                                walk_remaining(f, t, descend, nx),
                            ));
                            assert forall|x: int| 0 <= x < nx.pending@.len() implies (#[trigger] nx.pending@[x])
                                < t.nodes@.len() by {
                                if x >= rest.len() {
                                    assert(nx.pending@[x] == kids[kids.len() - 1 - (x - rest.len())]);
                                }
                            }
                        }
                    } else {
                        assert(calls_in(actions, k) == calls);
                        assert(walk_remaining(f, t, descend, nx) == walk_remaining(f, t, descend, st));
                    }
                },
                Some(n) => {
                    assert(calls_in(actions, k) == calls);
                    if ev is Returned {
                        let kids = t.children@[n as int]@;
                        if descend(n) {
                            lemma_stack_push_children(f, t, descend, st.pending@, kids);
                            assert(walk_remaining(f, t, descend, nx) =~= walked_stack(
                                f,
                                t,
                                descend,
                                st.pending@ + reversed_children(t, n as int),
                            ));
                            assert(walk_remaining(f, t, descend, nx) == walk_remaining(f, t, descend, st));
                            assert forall|x: int| 0 <= x < nx.pending@.len() implies (#[trigger] nx.pending@[x])
                                < t.nodes@.len() by {
                                if x >= st.pending@.len() {
                                    assert(nx.pending@[x] == kids[kids.len() - 1 - (x - st.pending@.len())]);
                                }
                            }
                        } else {
                            assert(walk_remaining(f, t, descend, nx) =~= walk_remaining(f, t, descend, st));
                        }
                    } else {
                        assert(walk_remaining(f, t, descend, nx) == walk_remaining(f, t, descend, st));
                    }
                },
            }
        }
    }
}

/// A walk calls back exactly the selected nodes that it reaches, each once,
/// in document order, and reaches all nodes of the subtree but those below a
/// selected node whose callback asked not to go on: in a run from the start
/// at `root` over a tree, where no callback throws and the callback on node
/// `n` answers `descend(n)`, when the walk ends, the nodes called back are
/// the selected nodes of the walked subtree at `root`, in order.
pub proof fn law_walk_visits_selected_in_document_order(
    f: FilterExpr,
    t: DomTree,
    descend: spec_fn(usize) -> bool,
    root: usize,
    states: Seq<WalkState>,
    events: Seq<WalkEvent>,
    actions: Seq<WalkAction>,
    k: int,
)
    requires
        t.ordered(),
        root < t.nodes@.len(),
        is_walk_run(f, t, states, events, actions),
        states[0].pending@ == seq![root],
        states[0].awaiting is None,
        !states[0].finished,
        answers_by(states, events, descend),
        0 <= k < events.len(),
        actions[k] == WalkAction::Done(true),
    ensures
        calls_in(actions, k) == selected(f, t, walked_subtree(f, t, descend, root as int)),
{
    lemma_walk_invariant(f, t, descend, root, states, events, actions, k);
    assert(spec_walk_step(f, t, states[k], events[k], states[k + 1], actions[k]));
    assert(walk_remaining(f, t, descend, states[k]) =~= Seq::<usize>::empty());
    assert(selected(f, t, Seq::<usize>::empty()) =~= Seq::<usize>::empty()) by {
        reveal(Seq::filter);
    }
    assert(calls_in(actions, k) + Seq::<usize>::empty() =~= calls_in(actions, k));
}

} // verus!
