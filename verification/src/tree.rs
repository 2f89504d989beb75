//! The visual hierarchy of entities: parent pointers and ordered child lists,
//! indexed by entity index.
//!
//! The tree maintains, by construction: exactly one parent per non-root node,
//! no cycles (every node carries its depth, which strictly decreases along
//! parent pointers), and stability of siblings not directly affected by a
//! mutation.  Removal detaches a single leaf; the cascade over a whole branch
//! is driven by [`crate::context::Context::remove`].

use vstd::prelude::*;
use crate::entity::Entity;

verus! {

broadcast use vstd::std_specs::vec::group_vec_axioms;

/// Upper bound on the depth of any node.  Deeper trees are refused by `add`;
/// the bound also serves as the termination measure for traversals.
pub const MAX_DEPTH: usize = 1048576;

/// Why a tree mutation was refused.
#[derive(Clone, Copy, PartialEq, Eq, Structural, Debug)]
pub enum TreeError {
    /// The entity handed in was the null entity.
    NullEntity,
    /// The entity to add is already part of the tree.
    AlreadyInTree,
    /// The entity (or the requested parent) is not part of the tree.
    NotFound,
    /// Adding here would exceed `MAX_DEPTH`.
    DepthLimit,
    /// The root cannot be removed.
    IsRoot,
    /// Only a node without children can be detached.
    HasChildren,
}

/// One slot of the tree arena.
#[derive(Debug)]
pub struct TreeNode {
    /// The exact handle (index and generation) stored here.
    pub entity: Entity,
    /// Parent entity; the null entity for the root.
    pub parent: Entity,
    /// Children in insertion order.  The order determines visual stacking and
    /// sibling iteration order.
    pub children: Vec<Entity>,
    /// Distance from the root; 0 for the root itself.
    pub depth: usize,
}

/// Parent/child hierarchy over entities.
#[derive(Debug)]
pub struct Tree {
    /// Slot `i` holds the node whose entity index is `i`, if any.
    pub slots: Vec<Option<TreeNode>>,
}

impl Tree {
    /// Is this exact entity (index and generation) in the tree?
    pub open spec fn contains(self, e: Entity) -> bool {
        &&& 0 <= e.index < self.slots@.len()
        &&& self.slots@[e.index as int] is Some
        &&& self.slots@[e.index as int]->Some_0.entity == e
    }

    pub open spec fn node_of(self, e: Entity) -> TreeNode
        recommends
            self.contains(e),
    {
        self.slots@[e.index as int]->Some_0
    }

    pub open spec fn parent_of(self, e: Entity) -> Entity
        recommends
            self.contains(e),
    {
        self.node_of(e).parent
    }

    pub open spec fn children_of(self, e: Entity) -> Seq<Entity>
        recommends
            self.contains(e),
    {
        self.node_of(e).children@
    }

    pub open spec fn depth_of(self, e: Entity) -> int
        recommends
            self.contains(e),
    {
        self.node_of(e).depth as int
    }

    /// Does slot `i` hold any node at all (whatever its generation)?
    pub open spec fn index_occupied(self, i: int) -> bool {
        0 <= i < self.slots@.len() && self.slots@[i] is Some
    }

    /// Structural well-formedness: indices match slots, the root is present at
    /// depth 0, every non-root node hangs off its parent's child list, child
    /// lists point back to their parent, and no child list repeats an entry.
    pub open spec fn wf(self) -> bool {
        &&& self.slots@.len() >= 1
        &&& self.contains(Entity::spec_root())
        &&& self.parent_of(Entity::spec_root()) == Entity::spec_null()
        &&& self.depth_of(Entity::spec_root()) == 0
        &&& forall|i: int|
            0 <= i < self.slots@.len() && self.slots@[i] is Some
                ==> (#[trigger] self.slots@[i])->Some_0.entity.index == i
        &&& forall|e: Entity|
            #[trigger] self.contains(e) && e != Entity::spec_root() ==> {
                &&& self.contains(self.parent_of(e))
                &&& self.depth_of(e) == self.depth_of(self.parent_of(e)) + 1
                &&& self.children_of(self.parent_of(e)).contains(e)
            }
        &&& forall|e: Entity| #[trigger] self.contains(e) ==> 0 <= self.depth_of(e) <= MAX_DEPTH
        &&& forall|e: Entity, k: int|
            #[trigger] self.contains(e) && 0 <= k < self.children_of(e).len() ==> {
                &&& self.contains(#[trigger] self.children_of(e)[k])
                &&& self.children_of(e)[k] != Entity::spec_root()
                &&& self.parent_of(self.children_of(e)[k]) == e
            }
        &&& forall|e: Entity, k1: int, k2: int|
            self.contains(e) && 0 <= k1 < k2 < self.children_of(e).len()
                ==> #[trigger] self.children_of(e)[k1] != #[trigger] self.children_of(e)[k2]
    }

    /// Is `x` equal to `a` or somewhere below it?  False for entities outside
    /// the tree.
    pub open spec fn is_descendant(self, x: Entity, a: Entity) -> bool
        decreases
            (if self.contains(x) { self.depth_of(x) } else { 0 }),
        when self.wf()
    {
        if !self.contains(x) {
            false
        } else if x == a {
            true
        } else if x == Entity::spec_root() {
            false
        } else {
            self.is_descendant(self.parent_of(x), a)
        }
    }

    /// A fresh tree holds only the root.
    pub fn new() -> (t: Tree)
        ensures
            t.wf(),
            t.contains(Entity::spec_root()),
            forall|e: Entity| t.contains(e) ==> e == Entity::spec_root(),
            t.children_of(Entity::spec_root()).len() == 0,
    {
        let root_node = TreeNode {
            entity: Entity::root(),
            parent: Entity::null(),
            children: Vec::new(),
            depth: 0,
        };
        let mut slots: Vec<Option<TreeNode>> = Vec::new();
        slots.push(Some(root_node));
        let t = Tree { slots };
        proof {
            assert(t.contains(Entity::spec_root()));
        }
        t
    }

    /// Membership test for the exact handle.
    pub fn contains_entity(&self, e: Entity) -> (r: bool)
        ensures
            r == self.contains(e),
    {
        if e.index() >= self.slots.len() {
            return false;
        }
        match &self.slots[e.index()] {
            Some(node) => node.entity == e,
            None => false,
        }
    }

    /// The parent of `e`: `None` for the root or for an entity not in the
    /// tree.
    pub fn parent(&self, e: Entity) -> (r: Option<Entity>)
        requires
            self.wf(),
        ensures
            match r {
                Some(p) => self.contains(e) && e != Entity::spec_root() && p == self.parent_of(e),
                None => !self.contains(e) || e == Entity::spec_root(),
            },
    {
        if !self.contains_entity(e) {
            return None;
        }
        if e.index() == 0 {
            return None;
        }
        match &self.slots[e.index()] {
            Some(node) => Some(node.parent),
            None => None,
        }
    }

    /// The `n`-th child of `parent` in insertion order.
    pub fn get_child(&self, parent: Entity, n: usize) -> (r: Option<Entity>)
        requires
            self.wf(),
        ensures
            match r {
                Some(c) => self.contains(parent) && n < self.children_of(parent).len()
                    && c == self.children_of(parent)[n as int],
                None => !self.contains(parent) || n >= self.children_of(parent).len(),
            },
    {
        if !self.contains_entity(parent) {
            return None;
        }
        match &self.slots[parent.index()] {
            Some(node) => {
                if n < node.children.len() {
                    Some(node.children[n])
                } else {
                    None
                }
            },
            None => None,
        }
    }

    /// How many children `parent` has; `None` if it is not in the tree.
    pub fn get_num_children(&self, parent: Entity) -> (r: Option<usize>)
        requires
            self.wf(),
        ensures
            match r {
                Some(n) => self.contains(parent) && n == self.children_of(parent).len(),
                None => !self.contains(parent),
            },
    {
        if !self.contains_entity(parent) {
            return None;
        }
        match &self.slots[parent.index()] {
            Some(node) => Some(node.children.len()),
            None => None,
        }
    }

    /// The children of `parent` in insertion order (empty if absent).
    pub fn child_vec(&self, parent: Entity) -> (r: Vec<Entity>)
        requires
            self.wf(),
        ensures
            self.contains(parent) ==> r@ == self.children_of(parent),
            !self.contains(parent) ==> r@.len() == 0,
    {
        let mut r: Vec<Entity> = Vec::new();
        if !self.contains_entity(parent) {
            return r;
        }
        match &self.slots[parent.index()] {
            Some(node) => {
                let n = node.children.len();
                let mut i: usize = 0;
                while i < n
                    invariant
                        self.wf(),
                        self.contains(parent),
                        n == self.children_of(parent).len(),
                        i <= n,
                        node.children@ == self.children_of(parent),
                        r@ == self.children_of(parent).take(i as int),
                    decreases n - i,
                {
                    proof {
                        assert(self.children_of(parent).take(i as int).push(
                            self.children_of(parent)[i as int]) =~= self.children_of(
                            parent).take(i + 1));
                    }
                    r.push(node.children[i]);
                    i += 1;
                }
                proof {
                    assert(self.children_of(parent).take(n as int) =~= self.children_of(parent));
                }
                r
            },
            None => r,
        }
    }

    /// Appends `id` as the last child of `parent`.
    ///
    /// On success `id` is in the tree as a fresh leaf under `parent`, the
    /// other children of `parent` keep their positions, and every other node
    /// is untouched.  The error cases, in the order they are checked: a null
    /// `id`, an `id` already present, a missing `parent`, and a parent already
    /// at the depth limit.
    pub fn add(&mut self, id: Entity, parent: Entity) -> (r: Result<(), TreeError>)
        requires
            old(self).wf(),
        ensures
            match r {
                Ok(()) => {
                    &&& final(self).wf()
                    &&& !id.spec_is_null() && !old(self).index_occupied(id.spec_index())
                    &&& old(self).contains(parent)
                    &&& old(self).depth_of(parent) < MAX_DEPTH
                    &&& final(self).contains(id)
                    &&& final(self).parent_of(id) == parent
                    &&& final(self).children_of(id).len() == 0
                    &&& final(self).depth_of(id) == old(self).depth_of(parent) + 1
                    &&& final(self).children_of(parent) == old(self).children_of(parent).push(id)
                    &&& final(self).depth_of(parent) == old(self).depth_of(parent)
                    &&& final(self).parent_of(parent) == old(self).parent_of(parent)
                    &&& forall|x: Entity|
                        #[trigger] final(self).contains(x) <==> old(self).contains(x) || x == id
                    &&& forall|x: Entity|
                        old(self).contains(x) && x != parent ==> {
                            &&& final(self).parent_of(x) == old(self).parent_of(x)
                            &&& final(self).children_of(x) == old(self).children_of(x)
                            &&& final(self).depth_of(x) == old(self).depth_of(x)
                        }
                },
                Err(e) => {
                    &&& *final(self) == *old(self)
                    &&& e == (if id.spec_is_null() {
                        TreeError::NullEntity
                    } else if old(self).index_occupied(id.spec_index()) {
                        TreeError::AlreadyInTree
                    } else if !old(self).contains(parent) {
                        TreeError::NotFound
                    } else {
                        TreeError::DepthLimit
                    })
                    &&& (id.spec_is_null() || old(self).index_occupied(id.spec_index())
                        || !old(self).contains(parent)
                        || old(self).depth_of(parent) >= MAX_DEPTH)
                },
            },
    {
        if id.is_null() {
            return Err(TreeError::NullEntity);
        }
        if id.index() < self.slots.len() {
            let occupied = match &self.slots[id.index()] {
                Some(_) => true,
                None => false,
            };
            if occupied {
                return Err(TreeError::AlreadyInTree);
            }
        }
        if !self.contains_entity(parent) {
            return Err(TreeError::NotFound);
        }
        let pdepth = match &self.slots[parent.index()] {
            Some(node) => node.depth,
            None => 0,
        };
        if pdepth >= MAX_DEPTH {
            return Err(TreeError::DepthLimit);
        }

        // Grow the arena so that slot `id.index` exists.
        while self.slots.len() <= id.index()
            invariant
                old(self).wf(),
                self.slots@.len() >= old(self).slots@.len(),
                forall|i: int|
                    0 <= i < self.slots@.len() ==> self.slots@[i] == (if i
                        < old(self).slots@.len() {
                        old(self).slots@[i]
                    } else {
                        None::<TreeNode>
                    }),
            decreases id.index - self.slots.len() + 1,
        {
            self.slots.push(None);
        }

        let new_node = TreeNode { entity: id, parent, children: Vec::new(), depth: pdepth + 1 };
        self.slots.set(id.index(), Some(new_node));

        // Append to the parent's child list in place.
        let pi = parent.index();
        match &mut self.slots[pi] {
            Some(node) => {
                node.children.push(id);
            },
            None => {},
        }

        proof {
            let oldt = *old(self);
            let newt = *self;
            assert(parent.index != id.index);
            assert(newt.contains(id));
            assert(newt.children_of(parent) =~= oldt.children_of(parent).push(id));
            assert forall|x: Entity| #[trigger] newt.contains(x) implies oldt.contains(x) || x
                == id by {}
            assert forall|x: Entity| oldt.contains(x) || x == id implies #[trigger] newt.contains(
                x) by {}
            assert forall|x: Entity| oldt.contains(x) && x != parent implies {
                &&& newt.parent_of(x) == oldt.parent_of(x)
                &&& newt.children_of(x) == oldt.children_of(x)
                &&& newt.depth_of(x) == oldt.depth_of(x)
            } by {}
            assert(newt.wf()) by {
                assert(newt.contains(Entity::spec_root()));
                assert forall|e: Entity| #[trigger] newt.contains(e) && e != Entity::spec_root()
                    implies {
                    &&& newt.contains(newt.parent_of(e))
                    &&& newt.depth_of(e) == newt.depth_of(newt.parent_of(e)) + 1
                    &&& newt.children_of(newt.parent_of(e)).contains(e)
                } by {
                    if e == id {
                        assert(newt.children_of(parent).last() == id);
                    } else {
                        assert(oldt.contains(e));
                        if oldt.parent_of(e) == parent {
                            assert(oldt.children_of(parent).contains(e));
                            let k = choose|k: int|
                                0 <= k < oldt.children_of(parent).len() && oldt.children_of(
                                    parent)[k] == e;
                            assert(newt.children_of(parent)[k] == e);
                        }
                    }
                }
                assert forall|e: Entity, k: int|
                    #[trigger] newt.contains(e) && 0 <= k < newt.children_of(e).len() implies {
                    &&& newt.contains(#[trigger] newt.children_of(e)[k])
                    &&& newt.children_of(e)[k] != Entity::spec_root()
                    &&& newt.parent_of(newt.children_of(e)[k]) == e
                } by {
                    if e == parent && k == newt.children_of(parent).len() - 1 {
                    } else {
                        assert(oldt.contains(e));
                        assert(oldt.children_of(e)[k] == newt.children_of(e)[k]);
                    }
                }
            }
        }
        Ok(())
    }

    /// Detaches the leaf `id`: removes it from its parent's child list and
    /// frees its slot.  Siblings keep their relative order.  Errors: `id` not
    /// in the tree, `id` the root, or `id` still having children.
    pub fn remove(&mut self, id: Entity) -> (r: Result<(), TreeError>)
        requires
            old(self).wf(),
        ensures
            match r {
                Ok(()) => {
                    &&& final(self).wf()
                    &&& old(self).contains(id) && id != Entity::spec_root()
                    &&& old(self).children_of(id).len() == 0
                    &&& !final(self).contains(id)
                    &&& final(self).children_of(old(self).parent_of(id)) == old(self).children_of(
                        old(self).parent_of(id)).remove_value(id)
                    &&& forall|x: Entity|
                        #[trigger] final(self).contains(x) <==> (old(self).contains(x) && x != id)
                    &&& forall|x: Entity|
                        old(self).contains(x) && x != id ==> {
                            &&& final(self).parent_of(x) == old(self).parent_of(x)
                            &&& final(self).depth_of(x) == old(self).depth_of(x)
                        }
                    &&& forall|x: Entity|
                        old(self).contains(x) && x != id && x != old(self).parent_of(id)
                            ==> final(self).children_of(x) == old(self).children_of(x)
                },
                Err(e) => {
                    &&& *final(self) == *old(self)
                    &&& e == (if !old(self).contains(id) {
                        TreeError::NotFound
                    } else if id == Entity::spec_root() {
                        TreeError::IsRoot
                    } else {
                        TreeError::HasChildren
                    })
                    &&& (!old(self).contains(id) || id == Entity::spec_root() || old(
                        self).children_of(id).len() > 0)
                },
            },
    {
        if !self.contains_entity(id) {
            return Err(TreeError::NotFound);
        }
        if id.index() == 0 {
            return Err(TreeError::IsRoot);
        }
        let (p, has_children) = match &self.slots[id.index()] {
            Some(node) => (node.parent, node.children.len() > 0),
            None => (Entity::null(), false),
        };
        if has_children {
            return Err(TreeError::HasChildren);
        }
        proof {
            assert(self.contains(p));
            assert(self.children_of(p).contains(id));
            assert(p.index != id.index) by {
                if p.index == id.index {
                    assert(p == id);
                    assert(self.depth_of(id) == self.depth_of(p) + 1);
                }
            }
        }

        // Find id in the parent's child list and remove it.
        let pi = p.index();
        match &mut self.slots[pi] {
            Some(node) => {
                let n = node.children.len();
                let mut k: usize = 0;
                let ghost cs = node.children@;
                while k < n && node.children[k] != id
                    invariant
                        n == cs.len(),
                        k <= n,
                        node.children@ == cs,
                        forall|j: int| 0 <= j < k ==> cs[j] != id,
                        cs.contains(id),
                    decreases n - k,
                {
                    k += 1;
                }
                proof {
                    if k == n {
                        let j = choose|j: int| 0 <= j < cs.len() && cs[j] == id;
                        assert(false);
                    }
                    assert(cs[k as int] == id);
                }
                node.children.remove(k);
                proof {
                    cs.index_of_first_ensures(id);
                    let i = cs.index_of_first(id)->Some_0;
                    if i < k as int {
                        assert(cs[i] != id);
                        assert(false);
                    }
                    if i > k as int {
                        assert(cs[k as int] != id);
                        assert(false);
                    }
                    assert(node.children@ == cs.remove_value(id));
                }
            },
            None => {},
        }
        self.slots.set(id.index(), None);

        proof {
            let oldt = *old(self);
            let newt = *self;
            let pp = oldt.parent_of(id);
            // The removed position was the unique occurrence of id.
            assert(oldt.children_of(pp).index_of(id) >= 0);
            assert(newt.children_of(pp) =~= oldt.children_of(pp).remove_value(id));
            assert forall|x: Entity| #[trigger] newt.contains(x) implies (oldt.contains(x) && x
                != id) by {}
            assert forall|x: Entity| oldt.contains(x) && x != id implies #[trigger] newt.contains(
                x) by {}
            assert(newt.wf()) by {
                assert(newt.contains(Entity::spec_root()));
                assert forall|e: Entity| #[trigger] newt.contains(e) && e != Entity::spec_root()
                    implies {
                    &&& newt.contains(newt.parent_of(e))
                    &&& newt.depth_of(e) == newt.depth_of(newt.parent_of(e)) + 1
                    &&& newt.children_of(newt.parent_of(e)).contains(e)
                } by {
                    assert(oldt.contains(e));
                    assert(oldt.children_of(oldt.parent_of(e)).contains(e));
                    if oldt.parent_of(e) == pp {
                        let k = choose|k: int|
                            0 <= k < oldt.children_of(pp).len() && oldt.children_of(pp)[k] == e;
                        let ki = oldt.children_of(pp).index_of(id);
                        if k < ki {
                            assert(newt.children_of(pp)[k] == e);
                        } else {
                            assert(k > ki);
                            assert(newt.children_of(pp)[k - 1] == e);
                        }
                    }
                }
                assert forall|e: Entity, k: int|
                    #[trigger] newt.contains(e) && 0 <= k < newt.children_of(e).len() implies {
                    &&& newt.contains(#[trigger] newt.children_of(e)[k])
                    &&& newt.children_of(e)[k] != Entity::spec_root()
                    &&& newt.parent_of(newt.children_of(e)[k]) == e
                } by {
                    assert(oldt.contains(e));
                    if e == pp {
                        let ki = oldt.children_of(pp).index_of(id);
                        if k < ki {
                            assert(newt.children_of(pp)[k] == oldt.children_of(pp)[k]);
                        } else {
                            assert(newt.children_of(pp)[k] == oldt.children_of(pp)[k + 1]);
                        }
                        assert(oldt.children_of(e).contains(newt.children_of(e)[k]));
                        assert(newt.children_of(e)[k] != id) by {
                            let ci = newt.children_of(e)[k];
                            if ci == id {
                                // id occurs once in the old list, at position ki.
                                if k < ki {
                                    assert(oldt.children_of(pp)[k] == id);
                                    assert(false);
                                } else {
                                    assert(oldt.children_of(pp)[k + 1] == id);
                                    assert(false);
                                }
                            }
                        }
                    } else {
                        assert(newt.children_of(e) == oldt.children_of(e));
                        assert(oldt.children_of(e)[k] != id) by {
                            if oldt.children_of(e)[k] == id {
                                assert(oldt.parent_of(id) == e);
                            }
                        }
                    }
                }
                assert forall|e: Entity, k1: int, k2: int|
                    newt.contains(e) && 0 <= k1 < k2 < newt.children_of(e).len()
                    implies #[trigger] newt.children_of(e)[k1] != #[trigger] newt.children_of(
                    e)[k2] by {
                    assert(oldt.contains(e));
                    if e == pp {
                        let ki = oldt.children_of(pp).index_of(id);
                        let a1: int = if k1 < ki { k1 } else { k1 + 1 };
                        let a2: int = if k2 < ki { k2 } else { k2 + 1 };
                        assert(newt.children_of(e)[k1] == oldt.children_of(e)[a1]);
                        assert(newt.children_of(e)[k2] == oldt.children_of(e)[a2]);
                    }
                }
            }
        }
        Ok(())
    }
    /// The chain `e`, `parent(e)`, ..., root, in that order, as a sequence;
    /// empty for an entity outside the tree.
    pub open spec fn spec_ancestor_chain(self, e: Entity) -> Seq<Entity>
        decreases (if self.contains(e) { self.depth_of(e) } else { 0 }),
        when self.wf()
    {
        if !self.contains(e) {
            Seq::empty()
        } else if e == Entity::spec_root() {
            seq![e]
        } else {
            seq![e] + self.spec_ancestor_chain(self.parent_of(e))
        }
    }

    /// The chain `e`, `parent(e)`, ..., root, in that order.  Empty when `e`
    /// is not in the tree.
    pub fn ancestor_chain(&self, e: Entity) -> (r: Vec<Entity>)
        requires
            self.wf(),
        ensures
            r@ == self.spec_ancestor_chain(e),
            self.contains(e) ==> {
                &&& r@.len() == self.depth_of(e) + 1
                &&& r@[0] == e
                &&& forall|i: int|
                    0 <= i < r@.len() ==> self.contains(#[trigger] r@[i]) && self.depth_of(r@[i])
                        == self.depth_of(e) - i
                &&& forall|i: int|
                    0 <= i < r@.len() - 1 ==> self.parent_of(#[trigger] r@[i]) == r@[i + 1]
                &&& r@[r@.len() - 1] == Entity::spec_root()
            },
            !self.contains(e) ==> r@.len() == 0,
    {
        let mut r: Vec<Entity> = Vec::new();
        if !self.contains_entity(e) {
            proof {
                assert(r@ =~= self.spec_ancestor_chain(e));
            }
            return r;
        }
        let mut cur = e;
        r.push(cur);
        proof {
            assert(self.spec_ancestor_chain(e) =~= r@.take(r@.len() - 1)
                + self.spec_ancestor_chain(cur));
        }
        while cur.index() != 0
            invariant
                self.wf(),
                self.contains(e),
                self.contains(cur),
                r@.len() >= 1,
                r@[0] == e,
                r@[r@.len() - 1] == cur,
                self.depth_of(cur) == self.depth_of(e) - (r@.len() - 1),
                self.spec_ancestor_chain(e) == r@.take(r@.len() - 1)
                    + self.spec_ancestor_chain(cur),
                forall|i: int|
                    0 <= i < r@.len() ==> self.contains(#[trigger] r@[i]) && self.depth_of(r@[i])
                        == self.depth_of(e) - i,
                forall|i: int|
                    0 <= i < r@.len() - 1 ==> self.parent_of(#[trigger] r@[i]) == r@[i + 1],
            decreases self.depth_of(cur),
        {
            proof {
                assert(cur != Entity::spec_root());
            }
            let p = match &self.slots[cur.index()] {
                Some(node) => node.parent,
                None => Entity::null(),
            };
            proof {
                assert(p == self.parent_of(cur));
            }
            let ghost rpre = r@;
            let ghost curpre = cur;
            cur = p;
            r.push(cur);
            proof {
                assert(self.spec_ancestor_chain(curpre) == seq![curpre]
                    + self.spec_ancestor_chain(cur));
                assert(r@.take(r@.len() - 1) =~= rpre.take(rpre.len() - 1) + seq![curpre]);
                assert(self.spec_ancestor_chain(e) =~= r@.take(r@.len() - 1)
                    + self.spec_ancestor_chain(cur));
            }
        }
        proof {
            assert(cur == Entity::spec_root());
            assert(self.spec_ancestor_chain(cur) == seq![cur]);
            assert(r@ =~= r@.take(r@.len() - 1) + seq![cur]);
            assert(r@ =~= self.spec_ancestor_chain(e));
        }
        r
    }

    /// Decides [`Tree::is_descendant`] by walking parent pointers.
    pub fn is_descendant_of(&self, e: Entity, a: Entity) -> (r: bool)
        requires
            self.wf(),
        ensures
            r == self.is_descendant(e, a),
        decreases (if self.contains(e) { self.depth_of(e) } else { 0 }),
    {
        if !self.contains_entity(e) {
            return false;
        }
        if e == a {
            return true;
        }
        if e.index() == 0 {
            proof {
                assert(e == Entity::spec_root());
            }
            return false;
        }
        proof {
            assert(e != Entity::spec_root());
        }
        let p = match &self.slots[e.index()] {
            Some(node) => node.parent,
            None => Entity::null(),
        };
        proof {
            assert(p == self.parent_of(e));
        }
        self.is_descendant_of(p, a)
    }

    /// A descendant and its ancestor are both in the tree, and a strict
    /// descendant lies strictly deeper.
    pub proof fn lemma_descendant_in_tree(self, x: Entity, a: Entity)
        requires
            self.wf(),
            self.is_descendant(x, a),
        ensures
            self.contains(x),
            self.contains(a),
            self.depth_of(a) <= self.depth_of(x),
            x != a ==> self.depth_of(a) < self.depth_of(x),
        decreases (if self.contains(x) { self.depth_of(x) } else { 0 }),
    {
        if x != a && x != Entity::spec_root() {
            self.lemma_descendant_in_tree(self.parent_of(x), a);
        }
    }

    /// Every node in the tree is a descendant of itself.
    pub proof fn lemma_descendant_refl(self, x: Entity)
        requires
            self.wf(),
            self.contains(x),
        ensures
            self.is_descendant(x, x),
    {
    }

    /// A non-root node descends from its parent.
    pub proof fn lemma_descendant_parent(self, x: Entity)
        requires
            self.wf(),
            self.contains(x),
            x != Entity::spec_root(),
        ensures
            self.is_descendant(x, self.parent_of(x)),
    {
        self.lemma_descendant_refl(self.parent_of(x));
    }

    /// Descending is transitive.
    pub proof fn lemma_descendant_trans(self, x: Entity, y: Entity, z: Entity)
        requires
            self.wf(),
            self.is_descendant(x, y),
            self.is_descendant(y, z),
        ensures
            self.is_descendant(x, z),
        decreases (if self.contains(x) { self.depth_of(x) } else { 0 }),
    {
        if x != y && x != Entity::spec_root() {
            self.lemma_descendant_trans(self.parent_of(x), y, z);
        }
    }

    /// Two ancestors of one node lie on one chain: one descends from the
    /// other.
    pub proof fn lemma_descendant_linear(self, x: Entity, a: Entity, b: Entity)
        requires
            self.wf(),
            self.is_descendant(x, a),
            self.is_descendant(x, b),
        ensures
            self.is_descendant(a, b) || self.is_descendant(b, a),
        decreases (if self.contains(x) { self.depth_of(x) } else { 0 }),
    {
        if x == a {
        } else if x == b {
        } else if x != Entity::spec_root() {
            self.lemma_descendant_linear(self.parent_of(x), a, b);
        }
    }

    /// A strict descendant of `e` descends from one of `e`'s children.
    pub proof fn lemma_descendant_child_decomp(self, x: Entity, e: Entity)
        requires
            self.wf(),
            self.is_descendant(x, e),
            x != e,
        ensures
            exists|c: Entity|
                self.children_of(e).contains(c) && #[trigger] self.is_descendant(x, c),
        decreases (if self.contains(x) { self.depth_of(x) } else { 0 }),
    {
        self.lemma_descendant_in_tree(x, e);
        assert(x != Entity::spec_root()) by {
            if x == Entity::spec_root() {
                assert(!self.is_descendant(x, e));
            }
        }
        let p = self.parent_of(x);
        if p == e {
            self.lemma_descendant_refl(x);
            assert(self.children_of(e).contains(x) && self.is_descendant(x, x));
        } else {
            self.lemma_descendant_child_decomp(p, e);
            let c = choose|c: Entity|
                self.children_of(e).contains(c) && #[trigger] self.is_descendant(p, c);
            assert(self.is_descendant(x, c));
        }
    }

    /// Subtrees under distinct siblings are disjoint.
    pub proof fn lemma_sibling_subtrees_disjoint(self, e: Entity, c1: Entity, c2: Entity, x: Entity)
        requires
            self.wf(),
            self.contains(e),
            self.children_of(e).contains(c1),
            self.children_of(e).contains(c2),
            c1 != c2,
        ensures
            !(self.is_descendant(x, c1) && self.is_descendant(x, c2)),
    {
        if self.is_descendant(x, c1) && self.is_descendant(x, c2) {
            self.lemma_descendant_linear(x, c1, c2);
            let k1 = choose|k: int|
                0 <= k < self.children_of(e).len() && self.children_of(e)[k] == c1;
            let k2 = choose|k: int|
                0 <= k < self.children_of(e).len() && self.children_of(e)[k] == c2;
            assert(self.depth_of(c1) == self.depth_of(e) + 1);
            assert(self.depth_of(c2) == self.depth_of(e) + 1);
            if self.is_descendant(c1, c2) {
                self.lemma_descendant_in_tree(c1, c2);
            } else {
                self.lemma_descendant_in_tree(c2, c1);
            }
        }
    }

    /// Descendant relations are stable under mutations that only delete nodes
    /// and leave every survivor's parent and depth unchanged.
    pub proof fn lemma_descendant_stable(orig: Tree, cur: Tree, c: Entity, x: Entity)
        requires
            orig.wf(),
            cur.wf(),
            forall|y: Entity|
                #[trigger] cur.contains(y) ==> orig.contains(y) && cur.parent_of(y)
                    == orig.parent_of(y) && cur.depth_of(y) == orig.depth_of(y),
            cur.contains(c),
        ensures
            cur.is_descendant(x, c) <==> (orig.is_descendant(x, c) && cur.contains(x)),
        decreases (if cur.contains(x) { cur.depth_of(x) } else { 0 }),
    {
        if cur.contains(x) && x != c && x != Entity::spec_root() {
            Tree::lemma_descendant_stable(orig, cur, c, cur.parent_of(x));
        }
        if !cur.contains(x) {
            if cur.is_descendant(x, c) {
                cur.lemma_descendant_in_tree(x, c);
            }
        } else if x == Entity::spec_root() && x != c {
            if orig.is_descendant(x, c) {
                orig.lemma_descendant_in_tree(x, c);
                assert(orig.depth_of(c) <= 0);
                assert(c == x);
            }
        }
    }
}

} // verus!
