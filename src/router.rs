use vstd::prelude::*;

use crate::method::HttpMethod;
use crate::text::{chars_of, string_of};

verus! {

/// The finished segments of path `t` and the segment still open at its end.
pub open spec fn segment_state(t: Seq<char>) -> (Seq<Seq<char>>, Seq<char>)
    decreases t.len(),
{
    if t.len() == 0 {
        (Seq::empty(), Seq::empty())
    } else {
        let (done, cur) = segment_state(t.drop_last());
        if t.last() == '/' {
            if cur.len() > 0 {
                (done.push(cur), Seq::empty())
            } else {
                (done, cur)
            }
        } else {
            (done, cur.push(t.last()))
        }
    }
}

/// The segments of a path: its pieces between `/`, empty ones dropped.
pub open spec fn segments_of(t: Seq<char>) -> Seq<Seq<char>> {
    let (done, cur) = segment_state(t);
    if cur.len() > 0 {
        done.push(cur)
    } else {
        done
    }
}

/// The wildcard segment `*`.
pub open spec fn star() -> Seq<char> {
    seq!['*']
}

/// `w` is the position of the first `*` segment.
pub open spec fn first_star(segs: Seq<Seq<char>>, w: int) -> bool {
    &&& 0 <= w < segs.len()
    &&& segs[w] == star()
    &&& forall|j: int| 0 <= j < w ==> segs[j] != star()
}

/// The value at `k`, if any.
pub open spec fn map_get<K, V>(m: Map<K, V>, k: K) -> Option<V> {
    if m.contains_key(k) {
        Some(m[k])
    } else {
        None
    }
}

/// The wildcard handler met first going down from prefix `i` of `segs`; a wildcard at a
/// prefix catches only paths that go on past it.
pub open spec fn first_wildcard<H>(wilds: Map<Seq<Seq<char>>, H>, segs: Seq<Seq<char>>, i: int) -> Option<H>
    decreases segs.len() - i,
{
    if i < 0 || i >= segs.len() {
        None
    } else if wilds.contains_key(segs.take(i)) {
        Some(wilds[segs.take(i)])
    } else {
        first_wildcard(wilds, segs, i + 1)
    }
}

/// What a lookup of `segs` with method `m` finds: the first wildcard on the way down, else
/// the handler registered for exactly this path and method.
pub open spec fn route_lookup<H>(
    routes: Map<(Seq<Seq<char>>, HttpMethod), H>,
    wilds: Map<Seq<Seq<char>>, H>,
    segs: Seq<Seq<char>>,
    m: HttpMethod,
) -> Option<H> {
    match first_wildcard(wilds, segs, 0) {
        Some(h) => Some(h),
        None => map_get(routes, (segs, m)),
    }
}

/// Registering `h` for `m` at `segs`: a `*` segment installs a wildcard at the segments
/// before it and ignores the rest; otherwise `h` is set for the exact path and method. No
/// handler is set for an unsupported method.
pub open spec fn route_add<H>(
    routes: Map<(Seq<Seq<char>>, HttpMethod), H>,
    wilds: Map<Seq<Seq<char>>, H>,
    segs: Seq<Seq<char>>,
    m: HttpMethod,
    h: H,
) -> (Map<(Seq<Seq<char>>, HttpMethod), H>, Map<Seq<Seq<char>>, H>) {
    if exists|w: int| first_star(segs, w) {
        let w = choose|w: int| first_star(segs, w);
        (routes, wilds.insert(segs.take(w), h))
    } else if m == HttpMethod::NoSupport {
        (routes, wilds)
    } else {
        (routes.insert((segs, m), h), wilds)
    }
}

/// The segments of a path, split as `segments_of` says.
pub fn split_segments(t: &[char]) -> (r: Vec<Vec<char>>)
    ensures
        r@.map_values(|v: Vec<char>| v@) == segments_of(t@),
{
    let n = t.len();
    let mut done: Vec<Vec<char>> = Vec::new();
    let mut cur: Vec<char> = Vec::new();
    let mut i: usize = 0;
    while i < n
        invariant
            n == t@.len(),
            i <= n,
            (done@.map_values(|v: Vec<char>| v@), cur@) == segment_state(t@.take(i as int)),
        decreases n - i,
    {
        assert(t@.take(i + 1).drop_last() == t@.take(i as int));
        let c = t[i];
        if c == '/' {
            if cur.len() > 0 {
                done.push(cur);
                cur = Vec::new();
                assert(done@.map_values(|v: Vec<char>| v@) =~= segment_state(t@.take(i + 1)).0);
                assert(cur@ =~= segment_state(t@.take(i + 1)).1);
            }
        } else {
            cur.push(c);
        }
        i = i + 1;
    }
    assert(t@.take(n as int) == t@);
    if cur.len() > 0 {
        done.push(cur);
        assert(done@.map_values(|v: Vec<char>| v@) =~= segments_of(t@));
    }
    done
}

/// Whether `a` and `b` hold the same characters.
fn same_chars(a: &[char], b: &[char]) -> (r: bool)
    ensures
        r == (a@ == b@),
{
    if a.len() != b.len() {
        return false;
    }
    let n = a.len();
    let mut i: usize = 0;
    while i < n
        invariant
            n == a@.len(),
            n == b@.len(),
            i <= n,
            a@.take(i as int) == b@.take(i as int),
        decreases n - i,
    {
        if a[i] != b[i] {
            return false;
        }
        assert(a@.take(i + 1) == a@.take(i as int).push(a@[i as int]));
        assert(b@.take(i + 1) == b@.take(i as int).push(b@[i as int]));
        i = i + 1;
    }
    assert(a@.take(n as int) == a@);
    assert(b@.take(n as int) == b@);
    true
}

/// One node of the route tree: the handlers for its own path and its children by segment.
pub struct RouteNode<H> {
    name: String,
    get: Option<H>,
    post: Option<H>,
    static_routes: Vec<(Vec<char>, usize)>,
    wildcard_handler: Option<H>,
}

/// The handler a node holds for a method.
pub open spec fn node_handler<H>(get: Option<H>, post: Option<H>, m: HttpMethod) -> Option<H> {
    match m {
        HttpMethod::Get => get,
        HttpMethod::Post => post,
        HttpMethod::NoSupport => None,
    }
}

impl<H> RouteNode<H> {
    /// The root node, named `/`.
    pub fn new() -> (r: RouteNode<H>)
        ensures
            r.is_bare(),
    {
        RouteNode {
            name: "/".to_owned(),
            get: None,
            post: None,
            static_routes: Vec::new(),
            wildcard_handler: None,
        }
    }

    /// A node for one path segment.
    pub fn with_name(name: &str) -> (r: RouteNode<H>)
        ensures
            r.is_bare(),
    {
        RouteNode {
            name: name.to_owned(),
            get: None,
            post: None,
            static_routes: Vec::new(),
            wildcard_handler: None,
        }
    }

    /// No handlers and no children.
    pub closed spec fn is_bare(&self) -> bool {
        &&& self.get is None
        &&& self.post is None
        &&& self.static_routes@.len() == 0
        &&& self.wildcard_handler is None
    }

    spec fn handler(&self, m: HttpMethod) -> Option<H> {
        node_handler(self.get, self.post, m)
    }
}

/// A path/method router: a tree over path segments, kept as a vector of nodes that
/// refer to their children by index; node 0 is the root `/`.
pub struct HttpRouter<H> {
    nodes: Vec<RouteNode<H>>,
    global_middlewares: Vec<H>,
    paths: Ghost<Seq<Seq<Seq<char>>>>,
    routes: Ghost<Map<(Seq<Seq<char>>, HttpMethod), H>>,
    wilds: Ghost<Map<Seq<Seq<char>>, H>>,
}

/// Some node has path `p`.
pub open spec fn has_node(paths: Seq<Seq<Seq<char>>>, p: Seq<Seq<char>>) -> bool {
    exists|i: int| 0 <= i < paths.len() && paths[i] == p
}

impl<H> HttpRouter<H> {
    /// The handlers registered for exact paths and methods.
    pub closed spec fn routes(&self) -> Map<(Seq<Seq<char>>, HttpMethod), H> {
        self.routes@
    }

    /// The wildcard handlers, by the path they were installed at.
    pub closed spec fn wildcards(&self) -> Map<Seq<Seq<char>>, H> {
        self.wilds@
    }

    /// The global middleware handlers, in order.
    pub closed spec fn middlewares(&self) -> Seq<H> {
        self.global_middlewares@
    }

    /// What looking up `path` with method `m` finds.
    pub open spec fn lookup(&self, path: Seq<char>, m: HttpMethod) -> Option<H> {
        route_lookup(self.routes(), self.wildcards(), segments_of(path), m)
    }

    spec fn children(&self, i: int) -> Seq<(Vec<char>, usize)> {
        self.nodes@[i].static_routes@
    }

    /// The tree's shape: each node's path is unique, node 0 is the root, each child's path
    /// extends its parent's by the child's segment, every prefix of a path is a node, and a
    /// node that extends another by one segment is listed among that node's children. The
    /// handlers on the nodes are those of `routes` and `wildcards`.
    pub closed spec fn wf(&self) -> bool {
        let paths = self.paths@;
        let n = self.nodes@.len();
        &&& n == paths.len()
        &&& n > 0
        &&& paths[0] == Seq::<Seq<char>>::empty()
        &&& forall|i: int, j: int|
            0 <= i < n && 0 <= j < n && #[trigger] paths[i] == #[trigger] paths[j] ==> i == j
        &&& forall|i: int, k: int|
            0 <= i < n && 0 <= k < self.children(i).len() ==> {
                let (s, j) = #[trigger] self.children(i)[k];
                &&& j < n
                &&& paths[j as int] == paths[i].push(s@)
            }
        &&& forall|j: int, m: int|
            0 <= j < n && 0 <= m <= paths[j].len() ==> has_node(paths, #[trigger] paths[j].take(m))
        &&& forall|i: int, s: Seq<char>|
            0 <= i < n && #[trigger] has_node(paths, paths[i].push(s)) ==> exists|k: int|
                0 <= k < self.children(i).len() && (#[trigger] self.children(i)[k]).0@ == s
        &&& forall|i: int, m: HttpMethod|
            0 <= i < n ==> #[trigger] self.nodes@[i].handler(m) == map_get(self.routes@, (paths[i], m))
        &&& forall|p: Seq<Seq<char>>, m: HttpMethod|
            #[trigger] self.routes@.contains_key((p, m)) ==> has_node(paths, p)
        &&& forall|i: int|
            0 <= i < n ==> #[trigger] self.nodes@[i].wildcard_handler == map_get(self.wilds@, paths[i])
        &&& forall|p: Seq<Seq<char>>| #[trigger] self.wilds@.contains_key(p) ==> has_node(paths, p)
    }

    /// A router with no routes.
    pub fn new() -> (r: HttpRouter<H>)
        ensures
            r.wf(),
            r.routes() == Map::<(Seq<Seq<char>>, HttpMethod), H>::empty(),
            r.wildcards() == Map::<Seq<Seq<char>>, H>::empty(),
            r.middlewares() == Seq::<H>::empty(),
    {
        let ghost root: Seq<Seq<Seq<char>>> = seq![Seq::<Seq<char>>::empty()];
        let mut nodes: Vec<RouteNode<H>> = Vec::new();
        nodes.push(RouteNode::new());
        let r = HttpRouter {
            nodes,
            global_middlewares: Vec::new(),
            paths: Ghost(root),
            routes: Ghost(Map::empty()),
            wilds: Ghost(Map::empty()),
        };
        proof {
            let paths = r.paths@;
            assert forall|j: int, m: int|
                0 <= j < 1 && 0 <= m <= paths[j].len() implies has_node(paths, #[trigger] paths[j].take(m)) by {
                assert(paths[j].take(m) =~= paths[0]);
            }
            assert forall|i: int, s: Seq<char>|
                0 <= i < 1 && #[trigger] has_node(paths, paths[i].push(s)) implies exists|k: int|
                    0 <= k < r.children(i).len() && (#[trigger] r.children(i)[k]).0@ == s by {
                let q = choose|q: int| 0 <= q < paths.len() && paths[q] == paths[i].push(s);
                assert(paths[q].len() == 0);
            }
        }
        r
    }

    /// No node lies at or below `segs.take(i + 1)` when none lies at it: then no wildcard
    /// from there on and no exact route for `segs`.
    proof fn lemma_no_node_below(&self, segs: Seq<Seq<char>>, i: int, j: int, m: HttpMethod)
        requires
            self.wf(),
            0 <= i < segs.len(),
            i + 1 <= j,
            !has_node(self.paths@, segs.take(i + 1)),
        ensures
            first_wildcard(self.wilds@, segs, j) is None,
            !self.routes@.contains_key((segs, m)),
        decreases segs.len() - j,
    {
        let paths = self.paths@;
        if self.routes@.contains_key((segs, m)) {
            let q = choose|q: int| 0 <= q < paths.len() && paths[q] == segs;
            assert(has_node(paths, paths[q].take(i + 1)));
        }
        if j < segs.len() {
            if self.wilds@.contains_key(segs.take(j)) {
                let q = choose|q: int| 0 <= q < paths.len() && paths[q] == segs.take(j);
                assert(has_node(paths, paths[q].take(i + 1)));
                assert(paths[q].take(i + 1) =~= segs.take(i + 1));
            }
            self.lemma_no_node_below(segs, i, j + 1, m);
        }
    }

    /// The handler that a request for `path` with `method` goes to: the first wildcard
    /// on the way down the tree, else the handler registered for exactly this path and
    /// method. A missing segment means no route; lookup never changes the tree.
    pub fn find_handler(&self, path: &str, method: HttpMethod) -> (r: Option<&H>)
        requires
            self.wf(),
        ensures
            match r {
                Some(h) => self.lookup(path@, method) == Some(*h),
                None => self.lookup(path@, method) is None,
            },
    {
        let chars = chars_of(path);
        let segs = split_segments(chars.as_slice());
        let ghost sv = segs@.map_values(|v: Vec<char>| v@);
        let ghost paths = self.paths@;
        let n = segs.len();
        let mut c: usize = 0;
        let mut i: usize = 0;
        assert(sv.take(0) =~= Seq::<Seq<char>>::empty());
        while i < n
            invariant
                self.wf(),
                paths == self.paths@,
                sv == segs@.map_values(|v: Vec<char>| v@),
                sv == segments_of(path@),
                n == sv.len(),
                i <= n,
                c < self.nodes@.len(),
                paths[c as int] == sv.take(i as int),
                first_wildcard(self.wilds@, sv, 0) == first_wildcard(self.wilds@, sv, i as int),
            decreases n - i,
        {
            assert(self.nodes@[c as int].wildcard_handler == map_get(self.wilds@, paths[c as int]));
            match &self.nodes[c].wildcard_handler {
                Some(h) => {
                    return Some(h);
                },
                None => {},
            }
            let node = &self.nodes[c];
            let kids = node.static_routes.len();
            let mut k: usize = 0;
            let mut found: Option<usize> = None;
            while k < kids
                invariant
                    self.wf(),
                    kids == self.children(c as int).len(),
                    node == self.nodes@[c as int],
                    c < self.nodes@.len(),
                    k <= kids,
                    i < n,
                    n == segs@.len(),
                    found is None ==> forall|q: int|
                        0 <= q < k ==> (#[trigger] self.children(c as int)[q]).0@ != segs@[i as int]@,
                    found matches Some(j) ==> j < self.nodes@.len() && paths[j as int]
                        == paths[c as int].push(segs@[i as int]@),
                    paths == self.paths@,
                ensures
                    found is None ==> k == kids,
                    found is None ==> forall|q: int|
                        0 <= q < k ==> (#[trigger] self.children(c as int)[q]).0@ != segs@[i as int]@,
                    found matches Some(j) ==> j < self.nodes@.len() && paths[j as int]
                        == paths[c as int].push(segs@[i as int]@),
                decreases kids - k,
            {
                let entry = &node.static_routes[k];
                if same_chars(entry.0.as_slice(), segs[i].as_slice()) {
                    assert(self.children(c as int)[k as int] == *entry);
                    found = Some(entry.1);
                    break;
                }
                k = k + 1;
            }
            assert(sv[i as int] == segs@[i as int]@);
            assert(sv.take(i + 1) =~= sv.take(i as int).push(sv[i as int]));
            match found {
                Some(j) => {
                    c = j;
                    i = i + 1;
                },
                None => {
                    proof {
                        if has_node(paths, sv.take(i + 1)) {
                            assert(has_node(paths, paths[c as int].push(sv[i as int])));
                            let q = choose|q: int|
                                0 <= q < self.children(c as int).len() && (#[trigger] self.children(
                                    c as int,
                                )[q]).0@ == sv[i as int];
                            assert(self.children(c as int)[q].0@ != segs@[i as int]@);
                        }
                        self.lemma_no_node_below(sv, i as int, i + 1, method);
                    }
                    return None;
                },
            }
        }
        assert(sv.take(n as int) =~= sv);
        assert(first_wildcard(self.wilds@, sv, n as int) is None);
        assert(self.nodes@[c as int].handler(method) == map_get(self.routes@, (paths[c as int], method)));
        match method {
            HttpMethod::Get => match &self.nodes[c].get {
                Some(h) => Some(h),
                None => None,
            },
            HttpMethod::Post => match &self.nodes[c].post {
                Some(h) => Some(h),
                None => None,
            },
            HttpMethod::NoSupport => None,
        }
    }

    /// Adding child `s` of node `c` as a new, bare node at the end keeps the shape.
    proof fn lemma_push_child(old: &Self, new: &Self, c: int, s: Seq<char>)
        requires
            old.wf(),
            0 <= c < old.nodes@.len(),
            !has_node(old.paths@, old.paths@[c].push(s)),
            new.paths@ == old.paths@.push(old.paths@[c].push(s)),
            new.routes@ == old.routes@,
            new.wilds@ == old.wilds@,
            new.nodes@.len() == old.nodes@.len() + 1,
            new.nodes@[old.nodes@.len() as int].is_bare(),
            forall|i: int| 0 <= i < old.nodes@.len() && i != c ==> new.nodes@[i] == old.nodes@[i],
            new.nodes@[c].get == old.nodes@[c].get,
            new.nodes@[c].post == old.nodes@[c].post,
            new.nodes@[c].wildcard_handler == old.nodes@[c].wildcard_handler,
            new.children(c) == old.children(c).push(
                new.children(c)[old.children(c).len() as int],
            ),
            new.children(c)[old.children(c).len() as int].0@ == s,
            new.children(c)[old.children(c).len() as int].1 == old.nodes@.len(),
        ensures
            new.wf(),
    {
        let po = old.paths@;
        let pn = new.paths@;
        let n = old.nodes@.len() as int;
        let p_new = po[c].push(s);
        assert forall|x: Seq<Seq<char>>| has_node(po, x) implies has_node(pn, x) by {
            let q = choose|q: int| 0 <= q < po.len() && po[q] == x;
            assert(pn[q] == x);
        }
        assert forall|i: int| 0 <= i < n implies po[i] != p_new by {}
        assert forall|i: int, j: int|
            0 <= i < n + 1 && 0 <= j < n + 1 && #[trigger] pn[i] == #[trigger] pn[j] implies i == j by {
            if i < n && j < n {
                assert(po[i] == po[j]);
            }
        }
        assert forall|i: int, k: int| 0 <= i < n + 1 && 0 <= k < new.children(i).len() implies {
            let (t, j) = #[trigger] new.children(i)[k];
            &&& j < n + 1
            &&& pn[j as int] == pn[i].push(t@)
        } by {
            if i == c {
                if k < old.children(c).len() {
                    assert(new.children(c)[k] == old.children(c)[k]);
                    let (t, j) = old.children(c)[k];
                    assert(j < n);
                }
            } else if i < n {
                assert(new.children(i) == old.children(i));
                let (t, j) = old.children(i)[k];
                assert(j < n);
            }
        }
        assert forall|j: int, m: int|
            0 <= j < n + 1 && 0 <= m <= pn[j].len() implies has_node(pn, #[trigger] pn[j].take(m)) by {
            if j < n {
                assert(has_node(po, po[j].take(m)));
            } else if m == pn[j].len() {
                assert(pn[j].take(m) =~= pn[j]);
            } else {
                assert(pn[j].take(m) =~= po[c].take(m));
                assert(has_node(po, po[c].take(m)));
            }
        }
        assert forall|i: int, t: Seq<char>|
            0 <= i < n + 1 && #[trigger] has_node(pn, pn[i].push(t)) implies exists|k: int|
                0 <= k < new.children(i).len() && (#[trigger] new.children(i)[k]).0@ == t by {
            let q = choose|q: int| 0 <= q < pn.len() && pn[q] == pn[i].push(t);
            if q == n {
                assert(pn[i].push(t).drop_last() == pn[i]);
                assert(p_new.drop_last() == po[c]);
                assert(pn[i] == po[c]);
                if i == n {
                    assert(pn[i].len() == po[c].len() + 1);
                }
                assert(i == c);
                assert(t == p_new.last());
                let k = old.children(c).len() as int;
                assert(new.children(i)[k].0@ == t);
            } else {
                assert(i < n) by {
                    if i == n {
                        assert(pn[q] == p_new.push(t));
                        assert(has_node(po, po[q].take(p_new.len() as int)));
                        assert(po[q].take(p_new.len() as int) =~= p_new);
                    }
                }
                assert(has_node(po, po[i].push(t)));
                let k = choose|k: int|
                    0 <= k < old.children(i).len() && (#[trigger] old.children(i)[k]).0@ == t;
                if i == c {
                    assert(new.children(i)[k] == old.children(i)[k]);
                } else {
                    assert(new.children(i) == old.children(i));
                }
            }
        }
        assert forall|i: int, m: HttpMethod| 0 <= i < n + 1 implies #[trigger] new.nodes@[i].handler(m)
            == map_get(new.routes@, (pn[i], m)) by {
            if i == n {
                if new.routes@.contains_key((p_new, m)) {
                    assert(has_node(po, p_new));
                }
            } else {
                assert(old.nodes@[i].handler(m) == map_get(old.routes@, (po[i], m)));
            }
        }
        assert forall|i: int| 0 <= i < n + 1 implies #[trigger] new.nodes@[i].wildcard_handler
            == map_get(new.wilds@, pn[i]) by {
            if i == n {
                if new.wilds@.contains_key(p_new) {
                    assert(has_node(po, p_new));
                }
            } else {
                assert(old.nodes@[i].wildcard_handler == map_get(old.wilds@, po[i]));
            }
        }
    }

    /// Changing handlers, and the maps they stand for, in step keeps the shape.
    proof fn lemma_same_shape(old: &Self, new: &Self)
        requires
            old.wf(),
            new.paths@ == old.paths@,
            new.nodes@.len() == old.nodes@.len(),
            forall|q: int| 0 <= q < new.nodes@.len() ==> #[trigger] new.children(q) == old.children(q),
            forall|q: int, m: HttpMethod|
                0 <= q < new.nodes@.len() ==> #[trigger] new.nodes@[q].handler(m) == map_get(
                    new.routes@,
                    (new.paths@[q], m),
                ),
            forall|q: int|
                0 <= q < new.nodes@.len() ==> #[trigger] new.nodes@[q].wildcard_handler == map_get(
                    new.wilds@,
                    new.paths@[q],
                ),
            forall|x: Seq<Seq<char>>, m: HttpMethod|
                #[trigger] new.routes@.contains_key((x, m)) ==> has_node(new.paths@, x),
            forall|x: Seq<Seq<char>>| #[trigger] new.wilds@.contains_key(x) ==> has_node(new.paths@, x),
        ensures
            new.wf(),
    {
        let paths = new.paths@;
        let n = new.nodes@.len() as int;
        assert forall|i: int, k: int| 0 <= i < n && 0 <= k < new.children(i).len() implies {
            let (t, j) = #[trigger] new.children(i)[k];
            &&& j < n
            &&& paths[j as int] == paths[i].push(t@)
        } by {
            assert(new.children(i) == old.children(i));
            let (t, j) = old.children(i)[k];
        }
        assert forall|i: int, t: Seq<char>|
            0 <= i < n && #[trigger] has_node(paths, paths[i].push(t)) implies exists|k: int|
                0 <= k < new.children(i).len() && (#[trigger] new.children(i)[k]).0@ == t by {
            assert(new.children(i) == old.children(i));
            assert(has_node(old.paths@, old.paths@[i].push(t)));
            let k = choose|k: int|
                0 <= k < old.children(i).len() && (#[trigger] old.children(i)[k]).0@ == t;
            assert(new.children(i)[k] == old.children(i)[k]);
        }
    }

    /// The child of node `c` for segment `seg`, if there is one.
    fn child(&self, c: usize, seg: &[char]) -> (r: Option<usize>)
        requires
            self.wf(),
            c < self.nodes@.len(),
        ensures
            match r {
                Some(j) => j < self.nodes@.len() && self.paths@[j as int] == self.paths@[c as int].push(seg@),
                None => !has_node(self.paths@, self.paths@[c as int].push(seg@)),
            },
    {
        let node = &self.nodes[c];
        let kids = node.static_routes.len();
        let mut k: usize = 0;
        while k < kids
            invariant
                self.wf(),
                c < self.nodes@.len(),
                node == self.nodes@[c as int],
                kids == self.children(c as int).len(),
                k <= kids,
                forall|q: int| 0 <= q < k ==> (#[trigger] self.children(c as int)[q]).0@ != seg@,
            decreases kids - k,
        {
            let entry = &node.static_routes[k];
            if same_chars(entry.0.as_slice(), seg) {
                assert(self.children(c as int)[k as int] == *entry);
                return Some(entry.1);
            }
            k = k + 1;
        }
        proof {
            if has_node(self.paths@, self.paths@[c as int].push(seg@)) {
                let q = choose|q: int|
                    0 <= q < self.children(c as int).len() && (#[trigger] self.children(
                        c as int,
                    )[q]).0@ == seg@;
            }
        }
        None
    }

    /// Registers `handler` for `method` at `path`, as `route_add` says.
    fn insert_route(&mut self, method: HttpMethod, path: &str, handler: H)
        requires
            old(self).wf(),
        ensures
            final(self).wf(),
            (final(self).routes(), final(self).wildcards()) == route_add(
                old(self).routes(),
                old(self).wildcards(),
                segments_of(path@),
                method,
                handler,
            ),
            final(self).middlewares() == old(self).middlewares(),
    {
        let chars = chars_of(path);
        let segs = split_segments(chars.as_slice());
        let ghost sv = segs@.map_values(|v: Vec<char>| v@);
        let n = segs.len();
        let mut c: usize = 0;
        let mut i: usize = 0;
        assert(sv.take(0) =~= Seq::<Seq<char>>::empty());
        while i < n
            invariant
                self.wf(),
                sv == segs@.map_values(|v: Vec<char>| v@),
                sv == segments_of(path@),
                n == sv.len(),
                i <= n,
                c < self.nodes@.len(),
                self.paths@[c as int] == sv.take(i as int),
                forall|j: int| 0 <= j < i ==> sv[j] != star(),
                self.routes@ == old(self).routes@,
                self.wilds@ == old(self).wilds@,
                self.global_middlewares@ == old(self).global_middlewares@,
            decreases n - i,
        {
            assert(sv[i as int] == segs@[i as int]@);
            if segs[i].len() == 1 && segs[i][0] == '*' {
                assert(sv[i as int] =~= star());
                assert(first_star(sv, i as int));
                let ghost p = self.paths@[c as int];
                let ghost before = *self;
                self.nodes[c].wildcard_handler = Some(handler);
                self.wilds = Ghost(self.wilds@.insert(p, handler));
                proof {
                    let w = choose|w: int| first_star(sv, w);
                    assert(w == i);
                    assert forall|q: int| 0 <= q < self.nodes@.len() implies #[trigger] self.nodes@[q].wildcard_handler
                        == map_get(self.wilds@, self.paths@[q]) by {
                        if q != c {
                            assert(before.nodes@[q].wildcard_handler == map_get(before.wilds@, before.paths@[q]));
                            assert(self.paths@[q] != p);
                        }
                    }
                    assert forall|q: int| 0 <= q < self.nodes@.len() implies #[trigger] self.children(q) == before.children(q) by {}
                    assert forall|q: int, m: HttpMethod| 0 <= q < self.nodes@.len() implies #[trigger] self.nodes@[q].handler(m)
                        == map_get(self.routes@, (self.paths@[q], m)) by {
                        assert(before.nodes@[q].handler(m) == map_get(before.routes@, (before.paths@[q], m)));
                    }
                    assert forall|x: Seq<Seq<char>>| #[trigger] self.wilds@.contains_key(x) implies has_node(self.paths@, x) by {
                        if x == p {
                            assert(self.paths@[c as int] == x);
                        }
                    }
                    assert forall|x: Seq<Seq<char>>, m: HttpMethod| #[trigger] self.routes@.contains_key((x, m)) implies has_node(self.paths@, x) by {
                        assert(before.routes@.contains_key((x, m)));
                    }
                    Self::lemma_same_shape(&before, self);
                }
                return;
            }
            proof {
                if sv[i as int] == star() {
                    assert(segs@[i as int]@.len() == 1);
                }
            }
            assert(sv.take(i + 1) =~= sv.take(i as int).push(sv[i as int]));
            match self.child(c, segs[i].as_slice()) {
                Some(j) => {
                    c = j;
                },
                None => {
                    let ghost before = *self;
                    let idx = self.nodes.len();
                    let name = string_of(segs[i].as_slice());
                    self.nodes.push(RouteNode::with_name(name.as_str()));
                    let seg = vstd::slice::slice_to_vec(segs[i].as_slice());
                    self.nodes[c].static_routes.push((seg, idx));
                    self.paths = Ghost(self.paths@.push(self.paths@[c as int].push(sv[i as int])));
                    proof {
                        assert forall|q: int| 0 <= q < before.nodes@.len() && q != c implies self.nodes@[q] == before.nodes@[q] by {}
                        Self::lemma_push_child(&before, self, c as int, sv[i as int]);
                    }
                    c = idx;
                },
            }
            i = i + 1;
        }
        assert(sv.take(n as int) =~= sv);
        assert(!exists|w: int| first_star(sv, w));
        let ghost before = *self;
        let ghost p = self.paths@[c as int];
        match method {
            HttpMethod::Get => {
                self.nodes[c].get = Some(handler);
            },
            HttpMethod::Post => {
                self.nodes[c].post = Some(handler);
            },
            HttpMethod::NoSupport => {
                return;
            },
        }
        self.routes = Ghost(self.routes@.insert((p, method), handler));
        proof {
            assert forall|q: int, m: HttpMethod| 0 <= q < self.nodes@.len() implies #[trigger] self.nodes@[q].handler(m)
                == map_get(self.routes@, (self.paths@[q], m)) by {
                assert(before.nodes@[q].handler(m) == map_get(before.routes@, (before.paths@[q], m)));
                if q != c {
                    assert(self.paths@[q] != p);
                }
            }
            assert forall|q: int| 0 <= q < self.nodes@.len() implies #[trigger] self.children(q) == before.children(q) by {}
            assert forall|q: int| 0 <= q < self.nodes@.len() implies #[trigger] self.nodes@[q].wildcard_handler
                == map_get(self.wilds@, self.paths@[q]) by {
                assert(before.nodes@[q].wildcard_handler == map_get(before.wilds@, before.paths@[q]));
            }
            assert forall|x: Seq<Seq<char>>, m: HttpMethod| #[trigger] self.routes@.contains_key((x, m)) implies has_node(self.paths@, x) by {
                if x == p {
                    assert(self.paths@[c as int] == x);
                } else {
                    assert(before.routes@.contains_key((x, m)));
                }
            }
            assert forall|x: Seq<Seq<char>>| #[trigger] self.wilds@.contains_key(x) implies has_node(self.paths@, x) by {
                assert(before.wilds@.contains_key(x));
            }
            Self::lemma_same_shape(&before, self);
        }
    }

    /// Registers `handler` for `method` at `path`. A `*` segment makes it the wildcard
    /// handler of the path before it, for every method and every longer path; the segments
    /// after `*` are ignored. Registering the same path and method again replaces the handler.
    pub fn add(self, method: HttpMethod, path: &str, handler: H) -> (r: HttpRouter<H>)
        requires
            self.wf(),
        ensures
            r.wf(),
            (r.routes(), r.wildcards()) == route_add(
                self.routes(),
                self.wildcards(),
                segments_of(path@),
                method,
                handler,
            ),
            r.middlewares() == self.middlewares(),
    {
        let mut r = self;
        r.insert_route(method, path, handler);
        r
    }

    /// Registers `handler` for `GET` at `path`.
    pub fn get(self, path: &str, handler: H) -> (r: HttpRouter<H>)
        requires
            self.wf(),
        ensures
            r.wf(),
            (r.routes(), r.wildcards()) == route_add(
                self.routes(),
                self.wildcards(),
                segments_of(path@),
                HttpMethod::Get,
                handler,
            ),
            r.middlewares() == self.middlewares(),
    {
        self.add(HttpMethod::Get, path, handler)
    }

    /// Appends a global middleware handler; routing does not consult them.
    pub fn add_global_middleware(&mut self, handler: H) -> (r: &mut HttpRouter<H>)
        requires
            old(self).wf(),
        ensures
            r.wf(),
            r.routes() == old(self).routes(),
            r.wildcards() == old(self).wildcards(),
            r.middlewares() == old(self).middlewares().push(handler),
            *final(self) == *final(r),
    {
        let ghost before = *self;
        self.global_middlewares.push(handler);
        proof {
            assert forall|q: int| 0 <= q < self.nodes@.len() implies #[trigger] self.children(q) == before.children(q) by {}
            assert forall|q: int, m: HttpMethod| 0 <= q < self.nodes@.len() implies #[trigger] self.nodes@[q].handler(m)
                == map_get(self.routes@, (self.paths@[q], m)) by {
                assert(before.nodes@[q].handler(m) == map_get(before.routes@, (before.paths@[q], m)));
            }
            assert forall|q: int| 0 <= q < self.nodes@.len() implies #[trigger] self.nodes@[q].wildcard_handler
                == map_get(self.wilds@, self.paths@[q]) by {
                assert(before.nodes@[q].wildcard_handler == map_get(before.wilds@, before.paths@[q]));
            }
            assert forall|x: Seq<Seq<char>>, m: HttpMethod| #[trigger] self.routes@.contains_key((x, m)) implies has_node(self.paths@, x) by {
                assert(before.routes@.contains_key((x, m)));
            }
            assert forall|x: Seq<Seq<char>>| #[trigger] self.wilds@.contains_key(x) implies has_node(self.paths@, x) by {
                assert(before.wilds@.contains_key(x));
            }
            Self::lemma_same_shape(&before, self);
        }
        self
    }
}

} // verus!

verus! {

impl<H> Default for HttpRouter<H> {
    fn default() -> (r: HttpRouter<H>)
        ensures
            r.wf(),
            r.routes() == Map::<(Seq<Seq<char>>, HttpMethod), H>::empty(),
            r.wildcards() == Map::<Seq<Seq<char>>, H>::empty(),
    {
        HttpRouter::new()
    }
}

/// Lookup passes over prefixes that hold no wildcard.
pub proof fn lemma_first_wildcard_skip<H>(
    wilds: Map<Seq<Seq<char>>, H>,
    segs: Seq<Seq<char>>,
    i: int,
    w: int,
)
    requires
        0 <= i <= w,
        forall|j: int| i <= j < w ==> !wilds.contains_key(#[trigger] segs.take(j)),
    ensures
        first_wildcard(wilds, segs, i) == first_wildcard(wilds, segs, w),
    decreases w - i,
{
    if i < w {
        lemma_first_wildcard_skip(wilds, segs, i + 1, w);
    }
}

/// A router with no routes and no wildcards finds nothing.
pub proof fn law_empty_router_finds_nothing<H>(r: HttpRouter<H>, path: Seq<char>, m: HttpMethod)
    requires
        r.routes() == Map::<(Seq<Seq<char>>, HttpMethod), H>::empty(),
        r.wildcards() == Map::<Seq<Seq<char>>, H>::empty(),
    ensures
        r.lookup(path, m) is None,
{
    lemma_first_wildcard_skip(r.wildcards(), segments_of(path), 0, segments_of(path).len() as int);
}

/// After registering `h` for a supported method `m` at a path with no `*` segment, that
/// path and method find `h`, unless a wildcard above the path catches it first.
pub proof fn law_registered_route_found<H>(
    before: HttpRouter<H>,
    after: HttpRouter<H>,
    path: Seq<char>,
    m: HttpMethod,
    h: H,
)
    requires
        (after.routes(), after.wildcards()) == route_add(
            before.routes(),
            before.wildcards(),
            segments_of(path),
            m,
            h,
        ),
        forall|j: int| 0 <= j < segments_of(path).len() ==> segments_of(path)[j] != star(),
        m != HttpMethod::NoSupport,
        first_wildcard(before.wildcards(), segments_of(path), 0) is None,
    ensures
        after.lookup(path, m) == Some(h),
{
    let segs = segments_of(path);
    assert(!exists|w: int| first_star(segs, w));
}

/// Registering a route at a path with no `*` segment changes what no other path and
/// method finds.
pub proof fn law_other_routes_unchanged<H>(
    before: HttpRouter<H>,
    after: HttpRouter<H>,
    path: Seq<char>,
    m: HttpMethod,
    h: H,
    other: Seq<char>,
    m2: HttpMethod,
)
    requires
        (after.routes(), after.wildcards()) == route_add(
            before.routes(),
            before.wildcards(),
            segments_of(path),
            m,
            h,
        ),
        forall|j: int| 0 <= j < segments_of(path).len() ==> segments_of(path)[j] != star(),
        segments_of(other) != segments_of(path) || m2 != m,
    ensures
        after.lookup(other, m2) == before.lookup(other, m2),
{
    let segs = segments_of(path);
    assert(!exists|w: int| first_star(segs, w));
}

/// A wildcard registered at `path` (the segments before its first `*`) catches every
/// longer path below it, for every method and whatever its further segments, unless a
/// wildcard higher up catches it first.
pub proof fn law_wildcard_catches_below<H>(
    before: HttpRouter<H>,
    after: HttpRouter<H>,
    path: Seq<char>,
    m: HttpMethod,
    h: H,
    w: int,
    other: Seq<char>,
    m2: HttpMethod,
)
    requires
        (after.routes(), after.wildcards()) == route_add(
            before.routes(),
            before.wildcards(),
            segments_of(path),
            m,
            h,
        ),
        first_star(segments_of(path), w),
        segments_of(other).len() > w,
        segments_of(other).take(w) == segments_of(path).take(w),
        forall|j: int| 0 <= j < w ==> !before.wildcards().contains_key(#[trigger] segments_of(other).take(j)),
    ensures
        after.lookup(other, m2) == Some(h),
{
    let segs = segments_of(path);
    let so = segments_of(other);
    let w0 = choose|x: int| first_star(segs, x);
    assert(w0 == w) by {
        if w0 < w {
            assert(segs[w0] != star());
        } else if w < w0 {
            assert(segs[w] != star());
        }
    }
    let wilds = after.wildcards();
    assert forall|j: int| 0 <= j < w implies !wilds.contains_key(#[trigger] so.take(j)) by {
        assert(so.take(j).len() != segs.take(w).len());
    }
    lemma_first_wildcard_skip(wilds, so, 0, w);
    assert(wilds.contains_key(so.take(w)));
}

} // verus!
