//! Service routes and the IPC socket names derived from them.

use vstd::prelude::*;

use crate::text::{chars_of, decimal, is_digit, lemma_decimal_digits, lemma_decimal_injective, push_char, to_decimal};

verus! {

/// A route of the service, such as `/inference`; its view is its path.
#[derive(Clone, Debug, PartialEq, Eq, Hash)]
pub struct Endpoint(String);

impl std::str::FromStr for Endpoint {
    type Err = std::convert::Infallible;

    /// Every string is the path of a route.
    fn from_str(s: &str) -> Result<Endpoint, std::convert::Infallible> {
        Ok(Endpoint::new(s))
    }
}

impl View for Endpoint {
    type V = Seq<char>;

    closed spec fn view(&self) -> Seq<char> {
        self.0@
    }
}

/// `p` with every leading `/` removed.
pub open spec fn trim_start_slashes(p: Seq<char>) -> Seq<char>
    decreases p.len(),
{
    if p.len() > 0 && p[0] == '/' {
        trim_start_slashes(p.drop_first())
    } else {
        p
    }
}

/// `p` with every trailing `/` removed.
pub open spec fn trim_end_slashes(p: Seq<char>) -> Seq<char>
    decreases p.len(),
{
    if p.len() > 0 && p.last() == '/' {
        trim_end_slashes(p.drop_last())
    } else {
        p
    }
}

/// `p` with all leading and trailing `/` removed (`trim_matches('/')`).
pub open spec fn trim_slashes(p: Seq<char>) -> Seq<char> {
    trim_end_slashes(trim_start_slashes(p))
}

/// `c`, with `/` turned into `+`.
pub open spec fn slash_to_plus(c: char) -> char {
    if c == '/' {
        '+'
    } else {
        c
    }
}

/// `p` with every `/` replaced by `+` (`replace('/', "+")`).
pub open spec fn slashes_to_plus(p: Seq<char>) -> Seq<char> {
    p.map_values(|c: char| slash_to_plus(c))
}

/// The file name of the socket of stage `stage` of the route `path`:
/// `ipc_{path trimmed of '/', with '/' as '+'}_{stage}.socket`.
pub open spec fn socket_name(path: Seq<char>, stage: nat) -> Seq<char> {
    "ipc_"@ + slashes_to_plus(trim_slashes(path)) + "_"@ + decimal(stage) + ".socket"@
}

proof fn lemma_trim_start_step(p: Seq<char>, start: int)
    requires
        0 <= start < p.len(),
        p[start] == '/',
    ensures
        trim_start_slashes(p.subrange(start, p.len() as int)) == trim_start_slashes(
            p.subrange(start + 1, p.len() as int),
        ),
{
    assert(p.subrange(start, p.len() as int).drop_first() =~= p.subrange(start + 1, p.len() as int));
}

proof fn lemma_trim_end_step(p: Seq<char>, start: int, end: int)
    requires
        0 <= start < end <= p.len(),
        p[end - 1] == '/',
    ensures
        trim_end_slashes(p.subrange(start, end)) == trim_end_slashes(p.subrange(start, end - 1)),
{
    assert(p.subrange(start, end).drop_last() =~= p.subrange(start, end - 1));
}

impl Endpoint {
    /// The route whose path is `path`.
    pub fn new(path: &str) -> (e: Endpoint)
        ensures
            e@ == path@,
    {
        Endpoint(String::from_str(path))
    }

    /// The path of the route.
    pub fn path(&self) -> (p: &str)
        ensures
            p@ == self@,
    {
        self.0.as_str()
    }

    /// The socket file name of stage `stage` of this route.
    pub fn standardize_to_socket(&self, stage: usize) -> (s: String)
        ensures
            s@ == socket_name(self@, stage as nat),
            s@.len() == trim_slashes(self@).len() + decimal(stage as nat).len() + 12,
            s@.subrange(0, 4) == "ipc_"@,
            forall|j: int|
                0 <= j < trim_slashes(self@).len() ==> #[trigger] s@[4 + j] == (if trim_slashes(
                    self@,
                )[j] == '/' {
                    '+'
                } else {
                    trim_slashes(self@)[j]
                }),
            s@[4 + trim_slashes(self@).len() as int] == '_',
            s@.subrange(
                5 + trim_slashes(self@).len() as int,
                5 + trim_slashes(self@).len() as int + decimal(stage as nat).len() as int,
            ) == decimal(stage as nat),
            s@.subrange(s@.len() - 7, s@.len() as int) == ".socket"@,
    {
        proof {
            lemma_socket_name_parts(self@, stage as nat);
        }
        let chars = chars_of(self.0.as_str());
        let ghost p = chars@;
        let n = chars.len();
        let mut start: usize = 0;
        assert(p.subrange(0, n as int) =~= p);
        while start < n && chars[start] == '/'
            invariant
                p == chars@,
                n == p.len(),
                start <= n,
                trim_start_slashes(p) == trim_start_slashes(p.subrange(start as int, n as int)),
            decreases n - start,
        {
            proof {
                lemma_trim_start_step(p, start as int);
            }
            start = start + 1;
        }
        assert(trim_start_slashes(p) == p.subrange(start as int, n as int));
        let mut end: usize = n;
        while end > start && chars[end - 1] == '/'
            invariant
                p == chars@,
                n == p.len(),
                start <= end <= n,
                trim_slashes(p) == trim_end_slashes(p.subrange(start as int, end as int)),
            decreases end,
        {
            proof {
                lemma_trim_end_step(p, start as int, end as int);
            }
            end = end - 1;
        }
        assert(trim_slashes(p) =~= p.subrange(start as int, end as int));
        let mut s = String::from_str("ipc_");
        let mut k: usize = start;
        while k < end
            invariant
                p == chars@,
                start <= k <= end <= n,
                n == p.len(),
                s@ == "ipc_"@ + slashes_to_plus(p.subrange(start as int, k as int)),
            decreases end - k,
        {
            let c = chars[k];
            let r = if c == '/' { '+' } else { c };
            proof {
                assert(slashes_to_plus(p.subrange(start as int, k + 1)) =~= slashes_to_plus(
                    p.subrange(start as int, k as int),
                ).push(r));
            }
            push_char(&mut s, r);
            k = k + 1;
        }
        s.append("_");
        let digits = to_decimal(stage);
        s.append(digits.as_str());
        s.append(".socket");
        s
    }
}

/// A socket name is `ipc_`, then the trimmed route with each `/` turned
/// into `+` and every other character kept, then `_`, the stage in
/// decimal, and `.socket`.
pub proof fn lemma_socket_name_parts(path: Seq<char>, stage: nat)
    ensures
        socket_name(path, stage).len() == trim_slashes(path).len() + decimal(stage).len() + 12,
        socket_name(path, stage).subrange(0, 4) == "ipc_"@,
        forall|j: int|
            0 <= j < trim_slashes(path).len() ==> #[trigger] socket_name(path, stage)[4 + j] == (
            if trim_slashes(path)[j] == '/' {
                '+'
            } else {
                trim_slashes(path)[j]
            }),
        socket_name(path, stage)[4 + trim_slashes(path).len() as int] == '_',
        socket_name(path, stage).subrange(
            5 + trim_slashes(path).len() as int,
            5 + trim_slashes(path).len() as int + decimal(stage).len() as int,
        ) == decimal(stage),
        socket_name(path, stage).subrange(
            socket_name(path, stage).len() - 7,
            socket_name(path, stage).len() as int,
        ) == ".socket"@,
{
    reveal_strlit("ipc_");
    reveal_strlit("_");
    reveal_strlit(".socket");
    let t = trim_slashes(path);
    let d = decimal(stage);
    let name = socket_name(path, stage);
    let n = name.len() as int;
    assert(name.subrange(0, 4) =~= "ipc_"@);
    assert(name.subrange(5 + t.len() as int, 5 + t.len() as int + d.len() as int) =~= d);
    assert(name.subrange(n - 7, n) =~= ".socket"@);
}

proof fn trim_start_run(p: Seq<char>) -> (a: int)
    ensures
        0 <= a <= p.len(),
        trim_start_slashes(p) == p.subrange(a, p.len() as int),
        forall|i: int| 0 <= i < a ==> p[i] == '/',
        a < p.len() ==> p[a] != '/',
    decreases p.len(),
{
    if p.len() > 0 && p[0] == '/' {
        let a = trim_start_run(p.drop_first());
        assert(p.drop_first().subrange(a, p.len() - 1) =~= p.subrange(a + 1, p.len() as int));
        assert forall|i: int| 0 <= i < a + 1 implies p[i] == '/' by {
            if i > 0 {
                assert(p[i] == p.drop_first()[i - 1]);
            }
        }
        a + 1
    } else {
        assert(p.subrange(0, p.len() as int) =~= p);
        0
    }
}

proof fn trim_end_run(p: Seq<char>) -> (b: int)
    ensures
        0 <= b <= p.len(),
        trim_end_slashes(p) == p.subrange(0, b),
        forall|i: int| b <= i < p.len() ==> p[i] == '/',
        b > 0 ==> p[b - 1] != '/',
    decreases p.len(),
{
    if p.len() > 0 && p.last() == '/' {
        let b = trim_end_run(p.drop_last());
        assert(p.drop_last().subrange(0, b) =~= p.subrange(0, b));
        assert forall|i: int| b <= i < p.len() implies p[i] == '/' by {
            if i < p.len() - 1 {
                assert(p[i] == p.drop_last()[i]);
            }
        }
        b
    } else {
        assert(p.subrange(0, p.len() as int) =~= p);
        p.len() as int
    }
}

/// Trimming keeps one contiguous run of the route: everything before and
/// after it is `/`, and the run neither starts nor ends with `/`.
pub proof fn lemma_trim_slashes_shape(p: Seq<char>)
    ensures
        exists|a: int, b: int|
            #![trigger p.subrange(a, b)]
            0 <= a <= b <= p.len() && trim_slashes(p) == p.subrange(a, b) && (forall|i: int|
                0 <= i < a ==> p[i] == '/') && (forall|i: int| b <= i < p.len() ==> p[i] == '/')
                && (a < b ==> p[a] != '/' && p[b - 1] != '/'),
{
    let a = trim_start_run(p);
    let q = p.subrange(a, p.len() as int);
    let c = trim_end_run(q);
    let b = a + c;
    assert(q.subrange(0, c) =~= p.subrange(a, b));
    assert forall|i: int| b <= i < p.len() implies p[i] == '/' by {
        assert(p[i] == q[i - a]);
    }
    if a < b {
        assert(p[b - 1] == q[c - 1]);
        assert(p[a] == q[0]);
    }
    assert(0 <= a <= b <= p.len() && trim_slashes(p) == p.subrange(a, b));
}

/// Routes that differ once trimmed, and hold no `+`, never share a socket
/// for the same stage.
pub proof fn lemma_socket_names_differ_by_route(p: Seq<char>, q: Seq<char>, stage: nat)
    requires
        trim_slashes(p) != trim_slashes(q),
        !trim_slashes(p).contains('+'),
        !trim_slashes(q).contains('+'),
    ensures
        socket_name(p, stage) != socket_name(q, stage),
{
    lemma_socket_name_parts(p, stage);
    lemma_socket_name_parts(q, stage);
    let tp = trim_slashes(p);
    let tq = trim_slashes(q);
    if socket_name(p, stage) == socket_name(q, stage) {
        assert(tp.len() == tq.len());
        assert forall|j: int| 0 <= j < tp.len() implies tp[j] == tq[j] by {
            assert(socket_name(p, stage)[4 + j] == socket_name(q, stage)[4 + j]);
            if tp[j] != '/' {
                assert(tp[j] != '+');
            }
            if tq[j] != '/' {
                assert(tq[j] != '+');
            }
        }
        assert(tp =~= tq);
    }
}

/// A socket name is a single file name: it holds no `/`.
pub proof fn lemma_socket_name_has_no_slash(path: Seq<char>, stage: nat)
    ensures
        !socket_name(path, stage).contains('/'),
{
    reveal_strlit("ipc_");
    reveal_strlit("_");
    reveal_strlit(".socket");
    lemma_decimal_digits(stage);
    let name = socket_name(path, stage);
    let mid = slashes_to_plus(trim_slashes(path));
    assert forall|i: int| 0 <= i < name.len() implies name[i] != '/' by {
        let a = 4 + mid.len();
        let b = a + 1;
        let c = b + decimal(stage).len();
        if i >= 4 && i < a {
            assert(name[i] == mid[i - 4]);
        } else if b <= i < c {
            assert(name[i] == decimal(stage)[i - b]);
            assert(is_digit(decimal(stage)[i - b]));
        }
    }
}

/// Two stages of one route never share a socket.
pub proof fn lemma_socket_names_distinct(path: Seq<char>, stage1: nat, stage2: nat)
    requires
        stage1 != stage2,
    ensures
        socket_name(path, stage1) != socket_name(path, stage2),
{
    let prefix = "ipc_"@ + slashes_to_plus(trim_slashes(path)) + "_"@;
    let n1 = socket_name(path, stage1);
    let n2 = socket_name(path, stage2);
    if n1 == n2 {
        reveal_strlit(".socket");
        let d1 = decimal(stage1);
        let d2 = decimal(stage2);
        assert(n1.len() == n2.len());
        assert(d1.len() == d2.len());
        assert forall|i: int| 0 <= i < d1.len() implies d1[i] == d2[i] by {
            assert(n1[prefix.len() + i] == d1[i]);
            assert(n2[prefix.len() + i] == d2[i]);
        }
        assert(d1 =~= d2);
        lemma_decimal_injective(stage1, stage2);
    }
}

proof fn lemma_trim_start_shape(p: Seq<char>)
    ensures
        trim_start_slashes(p).len() == 0 || trim_start_slashes(p)[0] != '/',
    decreases p.len(),
{
    if p.len() > 0 && p[0] == '/' {
        lemma_trim_start_shape(p.drop_first());
    }
}

proof fn lemma_trim_end_shape(p: Seq<char>)
    ensures
        trim_end_slashes(p).len() <= p.len(),
        trim_end_slashes(p) == p.take(trim_end_slashes(p).len() as int),
        trim_end_slashes(p).len() == 0 || trim_end_slashes(p).last() != '/',
    decreases p.len(),
{
    if p.len() > 0 && p.last() == '/' {
        lemma_trim_end_shape(p.drop_last());
        assert(p.drop_last().take(trim_end_slashes(p).len() as int) =~= p.take(
            trim_end_slashes(p).len() as int,
        ));
    } else {
        assert(p.take(p.len() as int) =~= p);
    }
}

proof fn lemma_trim_start_prepend(p: Seq<char>)
    ensures
        trim_start_slashes(seq!['/'] + p) == trim_start_slashes(p),
{
    assert((seq!['/'] + p).drop_first() =~= p);
}

proof fn lemma_trim_start_append(p: Seq<char>, c: char)
    ensures
        trim_start_slashes(p).len() > 0 ==> trim_start_slashes(p.push(c)) == trim_start_slashes(
            p,
        ).push(c),
        trim_start_slashes(p).len() == 0 ==> trim_start_slashes(p.push(c)) == trim_start_slashes(
            seq![c],
        ),
    decreases p.len(),
{
    if p.len() > 0 && p[0] == '/' {
        assert(p.push(c).drop_first() =~= p.drop_first().push(c));
        lemma_trim_start_append(p.drop_first(), c);
    } else if p.len() == 0 {
        assert(p.push(c) =~= seq![c]);
    }
}

/// Trimming the slashes of a route twice trims nothing more.
pub proof fn lemma_trim_slashes_idempotent(p: Seq<char>)
    ensures
        trim_slashes(trim_slashes(p)) == trim_slashes(p),
{
    let s = trim_start_slashes(p);
    let t = trim_slashes(p);
    lemma_trim_start_shape(p);
    lemma_trim_end_shape(s);
    if t.len() > 0 {
        assert(t[0] == s[0]);
    }
    assert(trim_start_slashes(t) == t);
    assert(trim_end_slashes(t) == t);
}

/// The socket names of a route do not change when its outer slashes are
/// trimmed, nor when one more slash is put at each end.
pub proof fn lemma_socket_name_ignores_outer_slashes(p: Seq<char>, stage: nat)
    ensures
        socket_name(trim_slashes(p), stage) == socket_name(p, stage),
        socket_name(seq!['/'] + p + seq!['/'], stage) == socket_name(p, stage),
{
    lemma_trim_slashes_idempotent(p);
    let q = seq!['/'] + p + seq!['/'];
    assert(q =~= (seq!['/'] + p).push('/'));
    lemma_trim_start_prepend(p);
    lemma_trim_start_append(seq!['/'] + p, '/');
    let s = trim_start_slashes(p);
    if s.len() > 0 {
        assert(s.push('/').drop_last() =~= s);
    } else {
        assert(seq!['/'][0] == '/');
        assert(seq!['/'].drop_first() =~= Seq::<char>::empty());
        assert(trim_start_slashes(Seq::<char>::empty()) == Seq::<char>::empty());
        assert(trim_start_slashes(seq!['/']) =~= Seq::<char>::empty());
    }
    assert(trim_slashes(q) == trim_slashes(p));
}

} // verus!
