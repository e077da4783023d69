//! Command-line options of the service, their validation, and how they are
//! split per route.

use vstd::hash_map::StringHashMap;
use vstd::prelude::*;

use crate::endpoint::Endpoint;
use crate::errors::SystemError;
use crate::text::{chars_of, decimal, to_decimal};

verus! {

/// The options the service is started with.
pub struct Opts {
    /// the Unix domain socket directory path
    pub path: String,
    /// provided endpoints, for example `/infer`, `/infer/image`, `/preprocess`
    pub endpoints: Vec<Endpoint>,
    /// stage count for each endpoint, by same order as `endpoints`
    pub stages: Vec<u32>,
    /// max batch size for each stage
    pub batches: Vec<u32>,
    /// capacity for the channel
    pub capacity: usize,
    /// timeout for one request (milliseconds)
    pub timeout: u64,
    /// wait time for each batch (milliseconds), superseded by `waits`
    pub wait: u64,
    /// max wait time for each stage, by same order as `batches`
    pub waits: Vec<u64>,
    /// service host
    pub address: String,
    /// service port
    pub port: u16,
    /// metrics namespace
    pub namespace: String,
    /// enable debug log
    pub debug: bool,
    /// response mime type, by same order as `endpoints`
    pub mime: Vec<String>,
}

/// Routes that the service itself serves and no endpoint may take.
pub open spec fn is_reserved_route(p: Seq<char>) -> bool {
    p == "/"@ || p == "/metrics"@
}

/// The reserved routes are exactly `/` and `/metrics`.
pub proof fn lemma_reserved_routes_exactly(p: Seq<char>)
    ensures
        is_reserved_route(p) <==> (p == "/"@ || p == "/metrics"@),
{
}

/// The total of the stage counts.
pub open spec fn total_stages(s: Seq<u32>) -> nat
    decreases s.len(),
{
    if s.len() == 0 {
        0
    } else {
        total_stages(s.drop_last()) + s.last() as nat
    }
}

/// The total of the stage counts adds up over any split of the counts:
/// nothing for none, the count itself for one.
pub proof fn lemma_total_stages_adds_up(a: Seq<u32>, b: Seq<u32>, x: u32)
    ensures
        total_stages(Seq::empty()) == 0,
        total_stages(seq![x]) == x,
        total_stages(a + b) == total_stages(a) + total_stages(b),
    decreases b.len(),
{
    assert(seq![x].drop_last() =~= Seq::<u32>::empty());
    if b.len() > 0 {
        lemma_total_stages_adds_up(a, b.drop_last(), x);
        assert((a + b).drop_last() =~= a + b.drop_last());
    } else {
        assert(a + b =~= a);
    }
}

/// The message of a failed length check between two arrays.
pub open spec fn length_mismatch_message(first: Seq<char>, second: Seq<char>, a: nat, b: nat) -> Seq<
    char,
> {
    first + " and "@ + second + " array should have same length, but "@ + decimal(a) + " != "@
        + decimal(b)
}

/// The items of a list as `{:#?}` prints them: each on its own line,
/// indented by four spaces and followed by a comma.
pub open spec fn pretty_items(s: Seq<u32>) -> Seq<char>
    decreases s.len(),
{
    if s.len() == 0 {
        Seq::empty()
    } else {
        pretty_items(s.drop_last()) + "    "@ + decimal(s.last() as nat) + ",\n"@
    }
}

/// A list of numbers as `{:#?}` prints it.
pub open spec fn pretty_list(s: Seq<u32>) -> Seq<char> {
    if s.len() == 0 {
        "[]"@
    } else {
        "[\n"@ + pretty_items(s) + "]"@
    }
}

/// The message given when the stage counts add up past `u32::MAX`.
pub open spec fn stage_total_message(stages: Seq<u32>) -> Seq<char> {
    "stages array convert to u32 failed, "@ + pretty_list(stages)
}

impl Opts {
    /// Some endpoint takes a reserved route.
    pub open spec fn has_reserved_route(&self) -> bool {
        exists|i: int| 0 <= i < self.endpoints@.len() && is_reserved_route(#[trigger] self.endpoints@[i]@)
    }

    /// The options describe a consistent service: no endpoint takes a
    /// reserved route, `stages` and `mime` have one entry per endpoint,
    /// `batches` has one entry per stage and `waits` one per batch size.
    pub open spec fn is_consistent(&self) -> bool {
        &&& !self.has_reserved_route()
        &&& self.endpoints@.len() == self.stages@.len()
        &&& self.endpoints@.len() == self.mime@.len()
        &&& total_stages(self.stages@) <= u32::MAX
        &&& self.batches@.len() == total_stages(self.stages@)
        &&& self.waits@.len() == self.batches@.len()
    }

    /// The message of the first check that fails, if any.
    pub open spec fn validation_error(&self) -> Option<Seq<char>> {
        let e = self.endpoints@.len();
        let s = self.stages@.len();
        if self.has_reserved_route() || e != s {
            Some(length_mismatch_message("endpoints"@, "stages"@, e, s))
        } else if e != self.mime@.len() {
            Some(length_mismatch_message("endpoints"@, "mime"@, e, self.mime@.len()))
        } else if total_stages(self.stages@) > u32::MAX {
            Some(stage_total_message(self.stages@))
        } else if self.batches@.len() != total_stages(self.stages@) {
            Some(length_mismatch_message("endpoints"@, "stages"@, e, s))
        } else if self.waits@.len() != self.batches@.len() {
            Some(
                length_mismatch_message(
                    "batches"@,
                    "waits"@,
                    self.batches@.len(),
                    self.waits@.len(),
                ),
            )
        } else {
            None
        }
    }
}

proof fn lemma_total_stages_prefix(s: Seq<u32>, i: int)
    requires
        0 <= i < s.len(),
    ensures
        total_stages(s.take(i + 1)) == total_stages(s.take(i)) + s[i],
{
    assert(s.take(i + 1).drop_last() =~= s.take(i));
}

proof fn lemma_total_stages_prefix_le(s: Seq<u32>, i: int)
    requires
        0 <= i <= s.len(),
    ensures
        total_stages(s.take(i)) <= total_stages(s),
    decreases s.len() - i,
{
    if i < s.len() {
        lemma_total_stages_prefix(s, i);
        lemma_total_stages_prefix_le(s, i + 1);
    } else {
        assert(s.take(i) =~= s);
    }
}

fn str_eq(a: &str, b: &str) -> (r: bool)
    ensures
        r == (a@ == b@),
{
    let x = chars_of(a);
    let y = chars_of(b);
    if x.len() != y.len() {
        return false;
    }
    let mut i: usize = 0;
    while i < x.len()
        invariant
            x@ == a@,
            y@ == b@,
            x@.len() == y@.len(),
            i <= x@.len(),
            forall|j: int| 0 <= j < i ==> x@[j] == y@[j],
        decreases x.len() - i,
    {
        if x[i] != y[i] {
            return false;
        }
        i = i + 1;
    }
    assert(x@ =~= y@);
    true
}

/// Whether `e` takes a route that the service serves itself.
pub fn is_reserved(e: &Endpoint) -> (r: bool)
    ensures
        r == is_reserved_route(e@),
        r == (e@ == "/"@ || e@ == "/metrics"@),
{
    str_eq(e.path(), "/") || str_eq(e.path(), "/metrics")
}

fn length_mismatch(first: &str, second: &str, a: usize, b: usize) -> (msg: String)
    ensures
        msg@ == length_mismatch_message(first@, second@, a as nat, b as nat),
{
    let mut msg = String::from_str(first);
    msg.append(" and ");
    msg.append(second);
    msg.append(" array should have same length, but ");
    let x = to_decimal(a);
    msg.append(x.as_str());
    msg.append(" != ");
    let y = to_decimal(b);
    msg.append(y.as_str());
    msg
}

fn stage_total_error(stages: &Vec<u32>) -> (msg: String)
    ensures
        msg@ == stage_total_message(stages@),
{
    let mut msg = String::from_str("stages array convert to u32 failed, ");
    if stages.len() == 0 {
        msg.append("[]");
        return msg;
    }
    msg.append("[\n");
    let ghost head = msg@;
    let mut i: usize = 0;
    while i < stages.len()
        invariant
            i <= stages@.len(),
            msg@ == head + pretty_items(stages@.take(i as int)),
        decreases stages.len() - i,
    {
        assert(stages@.take(i + 1).drop_last() =~= stages@.take(i as int));
        msg.append("    ");
        let d = to_decimal(stages[i] as usize);
        msg.append(d.as_str());
        msg.append(",\n");
        proof {
            assert(msg@ =~= head + pretty_items(stages@.take(i + 1)));
        }
        i = i + 1;
    }
    assert(stages@.take(i as int) =~= stages@);
    msg.append("]");
    msg
}

impl Opts {
    /// Checks that the options describe a consistent service; on failure
    /// the error names the first check that fails.
    pub fn validate(&self) -> (r: Result<(), SystemError>)
        ensures
            r is Ok <==> self.is_consistent(),
            r is Ok <==> self.validation_error() is None,
            r matches Err(SystemError::ArgsValidationFailed { msg }) ==> Some(msg@)
                == self.validation_error(),
            (exists|i: int|
                0 <= i < self.endpoints@.len() && (#[trigger] self.endpoints@[i]@ == "/"@
                    || self.endpoints@[i]@ == "/metrics"@)) ==> (r matches Err(
                SystemError::ArgsValidationFailed { msg },
            ) && msg@ == length_mismatch_message(
                "endpoints"@,
                "stages"@,
                self.endpoints@.len() as nat,
                self.stages@.len() as nat,
            )),
            r is Ok <==> {
                &&& forall|i: int|
                    0 <= i < self.endpoints@.len() ==> #[trigger] self.endpoints@[i]@ != "/"@
                        && self.endpoints@[i]@ != "/metrics"@
                &&& self.stages@.len() == self.endpoints@.len()
                &&& self.mime@.len() == self.endpoints@.len()
                &&& total_stages(self.stages@) <= u32::MAX
                &&& self.batches@.len() == total_stages(self.stages@)
                &&& self.waits@.len() == self.batches@.len()
            },
    {
        let mut k: usize = 0;
        while k < self.endpoints.len()
            invariant
                k <= self.endpoints@.len(),
                forall|j: int| 0 <= j < k ==> !is_reserved_route(#[trigger] self.endpoints@[j]@),
            decreases self.endpoints.len() - k,
        {
            if is_reserved(&self.endpoints[k]) {
                return Err(
                    SystemError::ArgsValidationFailed {
                        msg: length_mismatch(
                            "endpoints",
                            "stages",
                            self.endpoints.len(),
                            self.stages.len(),
                        ),
                    },
                );
            }
            k = k + 1;
        }
        if self.endpoints.len() != self.stages.len() {
            return Err(
                SystemError::ArgsValidationFailed {
                    msg: length_mismatch(
                        "endpoints",
                        "stages",
                        self.endpoints.len(),
                        self.stages.len(),
                    ),
                },
            );
        }
        if self.endpoints.len() != self.mime.len() {
            return Err(
                SystemError::ArgsValidationFailed {
                    msg: length_mismatch("endpoints", "mime", self.endpoints.len(), self.mime.len()),
                },
            );
        }
        let mut total: u64 = 0;
        let mut i: usize = 0;
        while i < self.stages.len()
            invariant
                i <= self.stages@.len(),
                total == total_stages(self.stages@.take(i as int)),
                total <= u32::MAX,
                !self.has_reserved_route(),
                self.endpoints@.len() == self.stages@.len(),
                self.endpoints@.len() == self.mime@.len(),
            decreases self.stages.len() - i,
        {
            proof {
                lemma_total_stages_prefix(self.stages@, i as int);
                lemma_total_stages_prefix_le(self.stages@, i + 1);
            }
            total = total + self.stages[i] as u64;
            if total > 0xffff_ffffu64 {
                return Err(SystemError::ArgsValidationFailed { msg: stage_total_error(&self.stages) });
            }
            i = i + 1;
        }
        assert(self.stages@.take(i as int) =~= self.stages@);
        if self.batches.len() as u64 != total {
            return Err(
                SystemError::ArgsValidationFailed {
                    msg: length_mismatch(
                        "endpoints",
                        "stages",
                        self.endpoints.len(),
                        self.stages.len(),
                    ),
                },
            );
        }
        if self.waits.len() != self.batches.len() {
            return Err(
                SystemError::ArgsValidationFailed {
                    msg: length_mismatch("batches", "waits", self.batches.len(), self.waits.len()),
                },
            );
        }
        Ok(())
    }
}

/// Validation refuses an option set exactly when some route, at any
/// index, is `/` or `/metrics`, or the array lengths do not fit together;
/// a reserved route is reported with the endpoints/stages message.
pub proof fn lemma_validation_verdict(opts: &Opts)
    ensures
        opts.validation_error() is None <==> {
            &&& forall|i: int|
                0 <= i < opts.endpoints@.len() ==> #[trigger] opts.endpoints@[i]@ != "/"@
                    && opts.endpoints@[i]@ != "/metrics"@
            &&& opts.stages@.len() == opts.endpoints@.len()
            &&& opts.mime@.len() == opts.endpoints@.len()
            &&& total_stages(opts.stages@) <= u32::MAX
            &&& opts.batches@.len() == total_stages(opts.stages@)
            &&& opts.waits@.len() == opts.batches@.len()
        },
        forall|i: int|
            0 <= i < opts.endpoints@.len() && (#[trigger] opts.endpoints@[i]@ == "/"@
                || opts.endpoints@[i]@ == "/metrics"@) ==> opts.validation_error() == Some(
                length_mismatch_message(
                    "endpoints"@,
                    "stages"@,
                    opts.endpoints@.len() as nat,
                    opts.stages@.len() as nat,
                ),
            ),
{
}

/// The offset of the first stage of endpoint `i` in the flat `batches`
/// and `waits`: the total of the stage counts before it.
pub open spec fn stage_offset(stages: Seq<u32>, i: int) -> nat {
    total_stages(stages.take(i))
}

/// The batch sizes and waits of the stages of endpoint `i`: its own run of
/// `stages[i]` entries in the flat `batches` and `waits`.
pub open spec fn stage_slices(batches: Seq<u32>, waits: Seq<u64>, stages: Seq<u32>, i: int) -> (
    Seq<u32>,
    Seq<u64>,
) {
    let off = stage_offset(stages, i) as int;
    let end = off + stages[i];
    (batches.subrange(off, end), waits.subrange(off, end))
}

impl Opts {
    /// The per-route settings after the first `n` endpoints were entered;
    /// a route named twice keeps the settings of its last entry.
    pub open spec fn endpoint_table_upto(&self, n: nat) -> Map<Seq<char>, (Seq<u32>, Seq<u64>)>
        decreases n,
    {
        if n == 0 {
            Map::empty()
        } else {
            self.endpoint_table_upto((n - 1) as nat).insert(
                self.endpoints@[n - 1]@,
                stage_slices(self.batches@, self.waits@, self.stages@, n - 1),
            )
        }
    }

    /// The settings of each route.
    pub open spec fn endpoint_table(&self) -> Map<Seq<char>, (Seq<u32>, Seq<u64>)> {
        self.endpoint_table_upto(self.endpoints@.len())
    }

    /// Every endpoint has a stage count, and the stages of all endpoints
    /// fit in `batches` and in `waits`.
    pub open spec fn can_divide(&self) -> bool {
        &&& self.stages@.len() >= self.endpoints@.len()
        &&& stage_offset(self.stages@, self.endpoints@.len() as int) <= self.batches@.len()
        &&& stage_offset(self.stages@, self.endpoints@.len() as int) <= self.waits@.len()
    }

    /// No route is named twice.
    pub open spec fn routes_are_distinct(&self) -> bool {
        forall|i: int, j: int|
            0 <= i < j < self.endpoints@.len() ==> self.endpoints@[i]@ != self.endpoints@[j]@
    }
}

fn copy_run<T: Copy>(v: &Vec<T>, start: usize, end: usize) -> (r: Vec<T>)
    requires
        start <= end <= v@.len(),
    ensures
        r@ == v@.subrange(start as int, end as int),
{
    let mut r: Vec<T> = Vec::new();
    let mut i: usize = start;
    while i < end
        invariant
            start <= i <= end <= v@.len(),
            r@ == v@.subrange(start as int, i as int),
        decreases end - i,
    {
        r.push(v[i]);
        assert(v@.subrange(start as int, i + 1) =~= v@.subrange(start as int, i as int).push(
            v@[i as int],
        ));
        i = i + 1;
    }
    r
}

impl Opts {
    /// Splits the batch sizes and waits per route, keyed by the route's
    /// path: route `i` takes the next `stages[i]` entries of each.
    pub fn devide_into_endpoints(&self) -> (r: StringHashMap<(Vec<u32>, Vec<u64>)>)
        requires
            self.can_divide(),
        ensures
            r@.dom() == self.endpoint_table().dom(),
            forall|k: Seq<char>|
                #[trigger] r@.contains_key(k) ==> r@[k].0@ == self.endpoint_table()[k].0
                    && r@[k].1@ == self.endpoint_table()[k].1,
            forall|k: Seq<char>|
                #[trigger] r@.contains_key(k) <==> exists|i: int|
                    0 <= i < self.endpoints@.len() && self.endpoints@[i]@ == k,
            forall|i: int|
                0 <= i < self.endpoints@.len() && (forall|j: int|
                    i < j < self.endpoints@.len() ==> self.endpoints@[j]@ != self.endpoints@[i]@)
                    ==> r@.contains_key(#[trigger] self.endpoints@[i]@)
                    && r@[self.endpoints@[i]@].0@ == self.batches@.subrange(
                    total_stages(self.stages@.take(i)) as int,
                    total_stages(self.stages@.take(i)) + self.stages@[i],
                ) && r@[self.endpoints@[i]@].1@ == self.waits@.subrange(
                    total_stages(self.stages@.take(i)) as int,
                    total_stages(self.stages@.take(i)) + self.stages@[i],
                ),
    {
        proof {
            lemma_endpoint_table_by_index(self, self.endpoints@.len());
        }
        let mut table: StringHashMap<(Vec<u32>, Vec<u64>)> = StringHashMap::new();
        let mut batch_ind: usize = 0;
        let mut i: usize = 0;
        while i < self.endpoints.len()
            invariant
                self.can_divide(),
                i <= self.endpoints@.len(),
                batch_ind == stage_offset(self.stages@, i as int),
                table@.dom() == self.endpoint_table_upto(i as nat).dom(),
                forall|k: Seq<char>|
                    #[trigger] table@.contains_key(k) ==> table@[k].0@
                        == self.endpoint_table_upto(i as nat)[k].0 && table@[k].1@
                        == self.endpoint_table_upto(i as nat)[k].1,
            decreases self.endpoints.len() - i,
        {
            proof {
                lemma_total_stages_prefix(self.stages@, i as int);
                lemma_offsets_grow(self.stages@, i + 1, self.endpoints@.len() as int);
            }
            let n_batches = self.batches.len();
            let stages = self.stages[i] as usize;
            let end = batch_ind + stages;
            assert(end <= n_batches);
            let sub_batches = copy_run(&self.batches, batch_ind, end);
            let sub_waits = copy_run(&self.waits, batch_ind, end);
            let key = String::from_str(self.endpoints[i].path());
            table.insert(key, (sub_batches, sub_waits));
            batch_ind = end;
            i = i + 1;
        }
        table
    }
}

proof fn lemma_offsets_grow(s: Seq<u32>, i: int, j: int)
    requires
        0 <= i <= j <= s.len(),
    ensures
        stage_offset(s, i) <= stage_offset(s, j),
    decreases j - i,
{
    if i < j {
        lemma_total_stages_prefix(s, i);
        lemma_offsets_grow(s, i + 1, j);
    }
}

/// A configuration that passes validation can be split per route.
pub proof fn lemma_validated_opts_divide(opts: &Opts)
    requires
        opts.is_consistent(),
    ensures
        opts.can_divide(),
{
    assert(opts.stages@.take(opts.endpoints@.len() as int) =~= opts.stages@);
}

/// The table holds exactly the paths of the first `n` routes, and route
/// `i` holds the run of `stages[i]` batch sizes and waits that starts after
/// the stages of the routes before it, unless a later one of the first `n`
/// routes has the same path.
pub proof fn lemma_endpoint_table_by_index(opts: &Opts, n: nat)
    requires
        n <= opts.endpoints@.len(),
        n <= opts.stages@.len(),
    ensures
        forall|k: Seq<char>|
            #[trigger] opts.endpoint_table_upto(n).contains_key(k) <==> exists|i: int|
                #![trigger opts.endpoints@[i]]
                0 <= i < n && opts.endpoints@[i]@ == k,
        forall|i: int|
            0 <= i < n && (forall|j: int|
                #![trigger opts.endpoints@[j]]
                i < j < n ==> opts.endpoints@[j]@ != opts.endpoints@[i]@) ==> {
                let off = total_stages(opts.stages@.take(i)) as int;
                let end = off + opts.stages@[i];
                &&& opts.endpoint_table_upto(n).contains_key(#[trigger] opts.endpoints@[i]@)
                &&& opts.endpoint_table_upto(n)[opts.endpoints@[i]@].0 == opts.batches@.subrange(
                    off,
                    end,
                )
                &&& opts.endpoint_table_upto(n)[opts.endpoints@[i]@].1 == opts.waits@.subrange(
                    off,
                    end,
                )
            },
    decreases n,
{
    if n > 0 {
        lemma_endpoint_table_by_index(opts, (n - 1) as nat);
        let prev = opts.endpoint_table_upto((n - 1) as nat);
        let m = opts.endpoint_table_upto(n);
        let last = opts.endpoints@[n - 1]@;
        assert forall|k: Seq<char>| #[trigger] m.contains_key(k) <==> exists|i: int|
            #![trigger opts.endpoints@[i]]
            0 <= i < n && opts.endpoints@[i]@ == k by {
            if k == last {
                assert(opts.endpoints@[n - 1]@ == k);
            } else {
                if prev.contains_key(k) {
                    let i = choose|i: int|
                        #![trigger opts.endpoints@[i]]
                        0 <= i < n - 1 && opts.endpoints@[i]@ == k;
                    assert(opts.endpoints@[i]@ == k);
                }
                if exists|i: int| #![trigger opts.endpoints@[i]] 0 <= i < n && opts.endpoints@[i]@ == k {
                    let i = choose|i: int|
                        #![trigger opts.endpoints@[i]]
                        0 <= i < n && opts.endpoints@[i]@ == k;
                    assert(i < n - 1);
                    assert(opts.endpoints@[i]@ == k);
                }
            }
        }
        assert forall|i: int|
            0 <= i < n && (forall|j: int|
                #![trigger opts.endpoints@[j]]
                i < j < n ==> opts.endpoints@[j]@ != opts.endpoints@[i]@) implies {
            let off = total_stages(opts.stages@.take(i)) as int;
            let end = off + opts.stages@[i];
            &&& m.contains_key(#[trigger] opts.endpoints@[i]@)
            &&& m[opts.endpoints@[i]@].0 == opts.batches@.subrange(off, end)
            &&& m[opts.endpoints@[i]@].1 == opts.waits@.subrange(off, end)
        } by {
            if i < n - 1 {
                assert(opts.endpoints@[n - 1]@ != opts.endpoints@[i]@);
                assert(forall|j: int|
                    #![trigger opts.endpoints@[j]]
                    i < j < n - 1 ==> opts.endpoints@[j]@ != opts.endpoints@[i]@);
            }
        }
    }
}

/// With no route named twice, route `i` of the table holds its own run.
pub proof fn lemma_route_settings(opts: &Opts, n: nat, i: int)
    requires
        opts.routes_are_distinct(),
        0 <= i < n <= opts.endpoints@.len(),
    ensures
        opts.endpoint_table_upto(n).contains_key(opts.endpoints@[i]@),
        opts.endpoint_table_upto(n)[opts.endpoints@[i]@] == stage_slices(
            opts.batches@,
            opts.waits@,
            opts.stages@,
            i,
        ),
    decreases n,
{
    if i < n - 1 {
        lemma_route_settings(opts, (n - 1) as nat, i);
    }
}

/// The batch sizes of the first `n` routes, joined in endpoint order.
pub open spec fn joined_batches(opts: &Opts, n: nat) -> Seq<u32>
    decreases n,
{
    if n == 0 {
        Seq::empty()
    } else {
        joined_batches(opts, (n - 1) as nat) + opts.endpoint_table()[opts.endpoints@[n - 1]@].0
    }
}

/// The waits of the first `n` routes, joined in endpoint order.
pub open spec fn joined_waits(opts: &Opts, n: nat) -> Seq<u64>
    decreases n,
{
    if n == 0 {
        Seq::empty()
    } else {
        joined_waits(opts, (n - 1) as nat) + opts.endpoint_table()[opts.endpoints@[n - 1]@].1
    }
}

proof fn lemma_joined_prefix(opts: &Opts, n: nat)
    requires
        opts.routes_are_distinct(),
        opts.can_divide(),
        n <= opts.endpoints@.len(),
    ensures
        joined_batches(opts, n) == opts.batches@.take(stage_offset(opts.stages@, n as int) as int),
        joined_waits(opts, n) == opts.waits@.take(stage_offset(opts.stages@, n as int) as int),
    decreases n,
{
    if n > 0 {
        lemma_joined_prefix(opts, (n - 1) as nat);
        lemma_route_settings(opts, opts.endpoints@.len(), n - 1);
        lemma_total_stages_prefix(opts.stages@, n - 1);
        lemma_offsets_grow(opts.stages@, n as int, opts.endpoints@.len() as int);
        let a = stage_offset(opts.stages@, n - 1) as int;
        let b = stage_offset(opts.stages@, n as int) as int;
        assert(opts.batches@.take(a) + opts.batches@.subrange(a, b) =~= opts.batches@.take(b));
        assert(opts.waits@.take(a) + opts.waits@.subrange(a, b) =~= opts.waits@.take(b));
    } else {
        assert(opts.batches@.take(0) =~= Seq::<u32>::empty());
        assert(opts.waits@.take(0) =~= Seq::<u64>::empty());
    }
}

/// Splitting a validated configuration with distinct routes loses nothing:
/// the routes' batch sizes, joined in endpoint order, give `batches` back,
/// and their waits give `waits` back.
pub proof fn lemma_divide_then_join(opts: &Opts)
    requires
        opts.is_consistent(),
        opts.routes_are_distinct(),
    ensures
        joined_batches(opts, opts.endpoints@.len()) == opts.batches@,
        joined_waits(opts, opts.endpoints@.len()) == opts.waits@,
{
    lemma_validated_opts_divide(opts);
    lemma_joined_prefix(opts, opts.endpoints@.len());
    assert(opts.stages@.take(opts.endpoints@.len() as int) =~= opts.stages@);
    assert(opts.batches@.take(opts.batches@.len() as int) =~= opts.batches@);
    assert(opts.waits@.take(opts.waits@.len() as int) =~= opts.waits@);
}

} // verus!
