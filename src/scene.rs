//! Scene nodes, owned as a tree, and the traversal that turns a tree into an
//! ordered list of steps for a renderer.
use vstd::prelude::*;

verus! {

/// Why a drawable node could not be made.
#[derive(Debug, Clone, Copy, PartialEq, Eq, Structural)]
pub enum NodeError {
    /// A render handle of zero: the resource was never allocated.
    NullHandle,
    /// A negative primitive count.
    NegativeCount,
}

/// A GPU resource handle together with the number of indexed primitives that
/// one draw submission of it consumes. The handle is never zero and the count
/// never negative.
#[derive(Debug, Clone, Copy)]
pub struct DrawCall {
    handle: u32,
    count: i32,
}

impl DrawCall {
    #[verifier::type_invariant]
    spec fn valid(self) -> bool {
        self.handle != 0 && self.count >= 0
    }

    pub closed spec fn spec_handle(self) -> u32 {
        self.handle
    }

    pub closed spec fn spec_count(self) -> i32 {
        self.count
    }

    /// A draw call for `handle` with `count` primitives, refused where the
    /// handle is zero or the count negative.
    pub fn new(handle: u32, count: i32) -> (r: Result<DrawCall, NodeError>)
        ensures
            handle == 0 ==> r == Err::<DrawCall, NodeError>(NodeError::NullHandle),
            handle != 0 && count < 0 ==> r == Err::<DrawCall, NodeError>(NodeError::NegativeCount),
            handle != 0 && count >= 0 ==> (r matches Ok(c) && c.spec_handle() == handle
                && c.spec_count() == count),
    {
        if handle == 0 {
            Err(NodeError::NullHandle)
        } else if count < 0 {
            Err(NodeError::NegativeCount)
        } else {
            Ok(DrawCall { handle, count })
        }
    }

    pub fn handle(&self) -> (r: u32)
        ensures
            r == self.spec_handle(),
            r != 0,
    {
        proof {
            use_type_invariant(self);
        }
        self.handle
    }

    pub fn primitive_count(&self) -> (r: i32)
        ensures
            r == self.spec_count(),
            r >= 0,
    {
        proof {
            use_type_invariant(self);
        }
        self.count
    }
}

/// A node of the scene tree. `transform` is whatever the renderer composes
/// into a model matrix; `render` is absent on purely organisational nodes.
/// A node owns its children, so a node is attached to at most one parent and
/// the tree is finite and acyclic by construction.
pub struct SceneNode<T> {
    pub transform: T,
    pub render: Option<DrawCall>,
    pub children: Vec<SceneNode<T>>,
}

/// One step of a depth-first, pre-order walk: entering a node (with the draw
/// call to submit there, if any), or leaving the node entered last.
pub enum Step<'a, T> {
    Enter { transform: &'a T, call: Option<DrawCall> },
    Leave,
}

/// The steps of a walk over `n` and its whole subtree.
pub open spec fn node_steps<T>(n: &SceneNode<T>) -> Seq<Step<'_, T>>
    decreases n,
{
    seq![Step::Enter { transform: &n.transform, call: n.render }]
        + forest_steps(n.children@)
        + seq![Step::Leave]
}

/// The steps of walks over each node of `cs`, in sequence order.
pub open spec fn forest_steps<'a, T>(cs: Seq<SceneNode<T>>) -> Seq<Step<'a, T>>
    decreases cs,
{
    if cs.len() == 0 {
        Seq::empty()
    } else {
        forest_steps(cs.drop_last()) + node_steps(&cs.last())
    }
}

/// The number of nodes in the subtree rooted at `n`, `n` included.
pub open spec fn node_size<T>(n: SceneNode<T>) -> nat
    decreases n,
{
    1 + forest_size(n.children@)
}

/// The number of nodes in the subtrees rooted at the nodes of `cs`.
pub open spec fn forest_size<T>(cs: Seq<SceneNode<T>>) -> nat
    decreases cs,
{
    if cs.len() == 0 {
        0
    } else {
        forest_size(cs.drop_last()) + node_size(cs.last())
    }
}

proof fn lemma_forest_steps_push<T>(cs: Seq<SceneNode<T>>, c: SceneNode<T>)
    ensures
        forest_steps(cs.push(c)) == forest_steps(cs) + node_steps(&c),
        forest_size(cs.push(c)) == forest_size(cs) + node_size(c),
{
    assert(cs.push(c).drop_last() == cs);
}

proof fn lemma_forest_size_remove<T>(cs: Seq<SceneNode<T>>, i: int)
    requires
        0 <= i < cs.len(),
    ensures
        forest_size(cs) == forest_size(cs.remove(i)) + node_size(cs[i]),
    decreases cs.len(),
{
    if i == cs.len() - 1 {
        assert(cs.remove(i) == cs.drop_last());
    } else {
        let r = cs.remove(i);
        assert(r.drop_last() == cs.drop_last().remove(i));
        assert(r.last() == cs.last());
        lemma_forest_size_remove(cs.drop_last(), i);
    }
}

proof fn lemma_forest_steps_len<T>(cs: Seq<SceneNode<T>>)
    ensures
        forest_steps(cs).len() == 2 * forest_size(cs),
    decreases cs,
{
    if cs.len() > 0 {
        lemma_forest_steps_len(cs.drop_last());
        lemma_node_steps_len(&cs.last());
    }
}

/// Walking a tree takes exactly one step into and one step out of each of its
/// nodes: the walk over any tree, however it was assembled, is finite.
pub proof fn lemma_node_steps_len<T>(n: &SceneNode<T>)
    ensures
        node_steps(n).len() == 2 * node_size(*n),
    decreases n,
{
    lemma_forest_steps_len(n.children@);
}

/// Detaching the child at `i` and attaching it again as the last child keeps
/// the number of nodes below, and the walk over them as long as before: moving
/// subtrees about never makes a walk longer, let alone endless.
pub proof fn lemma_reattach_keeps_walk<T>(cs: Seq<SceneNode<T>>, i: int)
    requires
        0 <= i < cs.len(),
    ensures
        forest_size(cs.remove(i).push(cs[i])) == forest_size(cs),
        forest_steps(cs.remove(i).push(cs[i])).len() == forest_steps(cs).len(),
        forest_steps(cs).len() == 2 * forest_size(cs),
{
    lemma_forest_size_remove(cs, i);
    lemma_forest_steps_push(cs.remove(i), cs[i]);
    lemma_forest_steps_len(cs);
    lemma_forest_steps_len(cs.remove(i).push(cs[i]));
}

impl<T> SceneNode<T> {
    /// An organisational node: no render handle and no children.
    pub fn create_empty(transform: T) -> (r: SceneNode<T>)
        ensures
            r.transform == transform,
            r.render is None,
            r.children@.len() == 0,
    {
        SceneNode { transform, render: None, children: Vec::new() }
    }

    /// A node that draws `count` primitives of the resource `handle`; refused
    /// where the handle is zero or the count negative.
    pub fn create_drawable(transform: T, handle: u32, count: i32) -> (r: Result<
        SceneNode<T>,
        NodeError,
    >)
        ensures
            handle == 0 ==> r is Err && r->Err_0 == NodeError::NullHandle,
            handle != 0 && count < 0 ==> r is Err && r->Err_0 == NodeError::NegativeCount,
            handle != 0 && count >= 0 ==> (r matches Ok(n) && n.transform == transform
                && n.render is Some && n.render->0.spec_handle() == handle
                && n.render->0.spec_count() == count && n.children@.len() == 0),
    {
        match DrawCall::new(handle, count) {
            Ok(c) => Ok(SceneNode { transform, render: Some(c), children: Vec::new() }),
            Err(e) => Err(e),
        }
    }

    /// The primitive count of this node's draw call, or -1 where it draws
    /// nothing.
    pub fn primitive_count(&self) -> (r: i32)
        ensures
            r == match self.render {
                Some(c) => c.spec_count(),
                None => -1i32,
            },
            r >= 0 <==> self.render is Some,
    {
        match &self.render {
            Some(c) => c.primitive_count(),
            None => -1,
        }
    }

    /// The render handle of this node, where it draws.
    pub fn render_handle(&self) -> (r: Option<u32>)
        ensures
            r == match self.render {
                Some(c) => Some(c.spec_handle()),
                None => None::<u32>,
            },
    {
        match &self.render {
            Some(c) => Some(c.handle()),
            None => None,
        }
    }

    /// Appends `child`, with its whole subtree, as the last child of this
    /// node. The child is moved in, so it cannot stay attached elsewhere.
    pub fn add_child(&mut self, child: SceneNode<T>)
        ensures
            final(self).transform == old(self).transform,
            final(self).render == old(self).render,
            final(self).children@ == old(self).children@.push(child),
            node_size(*final(self)) == node_size(*old(self)) + node_size(child),
    {
        proof {
            lemma_forest_steps_push(self.children@, child);
        }
        self.children.push(child);
    }

    /// Takes the child at `index` out of this node, with its subtree, or
    /// returns `None` and changes nothing where there is no such child.
    pub fn detach_child(&mut self, index: usize) -> (r: Option<SceneNode<T>>)
        ensures
            final(self).transform == old(self).transform,
            final(self).render == old(self).render,
            index >= old(self).children@.len() ==> r is None && final(self).children@ == old(
                self,
            ).children@,
            index < old(self).children@.len() ==> (r matches Some(c) && c == old(self).children@[index as int]
                && final(self).children@ == old(self).children@.remove(index as int)
                && node_size(*old(self)) == node_size(*final(self)) + node_size(c)),
    {
        if index < self.children.len() {
            proof {
                lemma_forest_size_remove(self.children@, index as int);
            }
            Some(self.children.remove(index))
        } else {
            None
        }
    }

    /// The depth-first, pre-order walk over this node and its subtree: each
    /// node is entered, with its draw call if it has one, then its children
    /// are walked in order, then it is left. A renderer composes each entered
    /// transform onto the one entered before it that is still open.
    pub fn draw(&self) -> (r: Vec<Step<'_, T>>)
        ensures
            r@ == node_steps(self),
    {
        let mut out: Vec<Step<'_, T>> = Vec::new();
        self.push_steps(&mut out);
        assert(out@ =~= node_steps(self));
        out
    }

    fn push_steps<'a>(&'a self, out: &mut Vec<Step<'a, T>>)
        ensures
            final(out)@ == old(out)@ + node_steps(self),
        decreases self,
    {
        let ghost start = out@;
        out.push(Step::Enter { transform: &self.transform, call: self.render });
        let mut i: usize = 0;
        while i < self.children.len()
            invariant
                i <= self.children@.len(),
                out@ == start + seq![Step::Enter { transform: &self.transform, call: self.render }]
                    + forest_steps(self.children@.take(i as int)),
            decreases self.children@.len() - i,
        {
            proof {
                assert(self.children@.take(i + 1) == self.children@.take(i as int).push(
                    self.children@[i as int],
                ));
                lemma_forest_steps_push(self.children@.take(i as int), self.children@[i as int]);
                assert(decreases_to!(self => self.children@[i as int]));
            }
            self.children[i].push_steps(out);
            i += 1;
        }
        assert(self.children@.take(i as int) == self.children@);
        out.push(Step::Leave);
        assert(out@ =~= start + node_steps(self));
    }
}

} // verus!
