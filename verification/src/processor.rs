use vstd::prelude::*;

use crate::cache::EntryView;
use crate::cache::ResponseCache;
use crate::cache::StoredEntry;
use crate::cache::find_key;
use crate::cache::get_step;
use crate::cache::is_expired;
use crate::cache::pop_step;
use crate::cache::put_step;
use crate::cache::rewrite_ttls;
use crate::cache::rewritten_ttls;
use crate::cache::spec_expired;
use crate::message::Question;
use crate::message::QuestionView;
use crate::message::adjust_resp;
use crate::message::get_key;
use crate::message::key_of;
use crate::message::parse_message;
use crate::message::parsed;
use crate::message::question_line;
use crate::message::question_text;
use crate::message::with_id;
use crate::message::with_ttls;
use crate::resolvers::Resolvers;

verus! {

/// What the processor tells the caller to do with one datagram.
pub enum Action {
    /// Malformed datagram: send nothing.
    Ignore,
    /// Serve these bytes to the client; no upstream call is needed.
    Reply(Vec<u8>),
    /// Forward the raw query to this upstream URL; `key` names the
    /// cache slot the response belongs to.
    Forward { url: String, key: String },
}

/// The admission of one datagram: the query lines to log, if logging
/// is on, and the action to take.
pub struct Handled {
    pub log_lines: Vec<String>,
    pub action: Action,
}

/// The query lines the processor asks the caller to log: one per
/// question record when logging is on, none otherwise.
pub open spec fn expected_log(logging: bool, questions: Seq<QuestionView>) -> Seq<Seq<char>> {
    if logging {
        questions.map_values(|q: QuestionView| question_text(q))
    } else {
        Seq::empty()
    }
}

/// The cache contents after one lookup at `now`: a hit is promoted,
/// and evicted again where it has expired; a miss changes nothing.
pub open spec fn lookup_cache_step(
    s: Seq<(Seq<char>, EntryView)>,
    key: Seq<char>,
    now: int,
) -> Seq<(Seq<char>, EntryView)> {
    let i = find_key(s, key);
    if i < 0 {
        s
    } else {
        let e = s[i].1;
        if spec_expired(e.ttls, e.stored_at as int, now) {
            pop_step(get_step(s, key), key)
        } else {
            get_step(s, key)
        }
    }
}

/// Whether a lookup at `now` yields a hit that has not expired.
pub open spec fn fresh_hit(s: Seq<(Seq<char>, EntryView)>, key: Seq<char>, now: int) -> bool {
    let i = find_key(s, key);
    &&& i >= 0
    &&& !spec_expired(s[i].1.ttls, s[i].1.stored_at as int, now)
}

/// The bytes a fresh hit is served as: the cached reply with every
/// answer TTL rewritten for `now` and the client's transaction id
/// patched in; `None` where re-encoding fails or yields fewer than the
/// two header bytes the id needs.
pub open spec fn served_bytes(
    s: Seq<(Seq<char>, EntryView)>,
    key: Seq<char>,
    now: int,
    id: u16,
) -> Option<Seq<u8>> {
    let e = s[find_key(s, key)].1;
    let w = with_ttls(e.bytes, rewritten_ttls(e.ttls, e.stored_at as int, now));
    if w is Some && w->0.len() >= 2 {
        Some(with_id(w->0, id))
    } else {
        None
    }
}

/// Per-request orchestration: decode, optional cache lookup, optional
/// forward, optional cache store. The caller performs the I/O the
/// returned actions ask for.
pub struct Processor {
    pool: Resolvers,
    cache: ResponseCache,
    cache_enabled: bool,
    log_queries: bool,
}

/// The action forwards the query: it carries the pool member at the
/// old cursor and the query's cache key, and the cursor advances by
/// one, wrapping past the end of the pool.
pub open spec fn forwards(a: Action, before: Processor, after: Processor, key: Seq<char>) -> bool {
    &&& (a matches Action::Forward { url, key: k } && url@ == before.spec_pool().urls()[
        before.spec_pool().cursor()
    ] && k@ == key)
    &&& after.spec_pool().urls() == before.spec_pool().urls()
    &&& after.spec_pool().cursor() == (before.spec_pool().cursor() + 1) % (
    before.spec_pool().urls().len() as int)
}

impl Processor {
    /// The resolver pool.
    pub closed spec fn spec_pool(self) -> Resolvers {
        self.pool
    }

    /// The cache contents, most recently used first.
    pub closed spec fn cache_model(self) -> Seq<(Seq<char>, EntryView)> {
        self.cache.model()
    }

    /// The cache capacity.
    pub closed spec fn cache_cap(self) -> nat {
        self.cache.cap()
    }

    /// Whether responses are cached at all.
    pub closed spec fn caching(self) -> bool {
        self.cache_enabled
    }

    /// Whether incoming queries are logged.
    pub closed spec fn logging(self) -> bool {
        self.log_queries
    }

    /// Invariant: the pool and the cache are well-formed.
    pub closed spec fn wf(self) -> bool {
        &&& self.pool.wf()
        &&& self.cache.wf()
    }

    /// Builds a processor from the resolved configuration: the
    /// upstream URLs (the default resolver when none are configured),
    /// the cache switch, the cache capacity, and the query-log switch.
    pub fn new(urls: Vec<String>, cache_enabled: bool, capacity: usize, log_queries: bool) -> (r:
        Self)
        requires
            capacity >= 1,
        ensures
            r.wf(),
            r.caching() == cache_enabled,
            r.logging() == log_queries,
            r.cache_cap() == capacity,
            r.cache_model() == Seq::<(Seq<char>, EntryView)>::empty(),
            r.spec_pool().cursor() == 0,
            urls@.len() > 0 ==> r.spec_pool().urls() =~= urls@.map_values(|s: String| s@),
            urls@.len() == 0 ==> r.spec_pool().urls() =~= seq![
                crate::resolvers::DEFAULT_RESOLVER@,
            ],
    {
        Processor {
            pool: Resolvers::new(urls),
            cache: ResponseCache::new(capacity),
            cache_enabled,
            log_queries,
        }
    }

    /// Admits one datagram at time `now`: a malformed one is ignored;
    /// with caching off every query forwards; a fresh cache hit is
    /// served with rewritten TTLs and the client's id; an expired hit
    /// is evicted and the query forwards; a miss forwards.
    pub fn handle_query(&mut self, datagram: &[u8], now: i64) -> (r: Handled)
        requires
            old(self).wf(),
        ensures
            final(self).wf(),
            final(self).caching() == old(self).caching(),
            final(self).logging() == old(self).logging(),
            final(self).cache_cap() == old(self).cache_cap(),
            match parsed(datagram@) {
                None => {
                    &&& r.action is Ignore
                    &&& r.log_lines@.len() == 0
                    &&& final(self).cache_model() == old(self).cache_model()
                    &&& final(self).spec_pool() == old(self).spec_pool()
                },
                Some(m) => {
                    let key = key_of(m.questions);
                    let s = old(self).cache_model();
                    &&& r.log_lines@.map_values(|l: String| l@) == expected_log(
                        old(self).logging(),
                        m.questions,
                    )
                    &&& if !old(self).caching() {
                        &&& forwards(r.action, *old(self), *final(self), key)
                        &&& final(self).cache_model() == s
                    } else if fresh_hit(s, key, now as int) && served_bytes(
                        s,
                        key,
                        now as int,
                        m.id,
                    ) is Some {
                        &&& (r.action matches Action::Reply(b) && b@ == served_bytes(
                            s,
                            key,
                            now as int,
                            m.id,
                        )->0)
                        &&& final(self).cache_model() == get_step(s, key)
                        &&& final(self).spec_pool() == old(self).spec_pool()
                    } else {
                        &&& forwards(r.action, *old(self), *final(self), key)
                        &&& final(self).cache_model() == lookup_cache_step(s, key, now as int)
                    }
                },
            },
    {
        let msg_opt = parse_message(datagram);
        match msg_opt {
            None => Handled { log_lines: Vec::new(), action: Action::Ignore },
            Some(msg) => {
                let ghost m = parsed(datagram@)->0;
                let ghost s = old(self).cache_model();
                let key = get_key(&msg.questions);
                proof {
                    assert(msg@.questions == m.questions);
                    assert(key@ == key_of(m.questions));
                }
                let log_lines = if self.log_queries {
                    query_log_lines(&msg.questions)
                } else {
                    Vec::new()
                };
                proof {
                    assert(log_lines@.map_values(|l: String| l@) == expected_log(
                        old(self).logging(),
                        m.questions,
                    ));
                }
                if !self.cache_enabled {
                    let url = self.pool.get_url();
                    return Handled { log_lines, action: Action::Forward { url, key } };
                }
                match self.cache.lookup(&key) {
                    None => {
                        let url = self.pool.get_url();
                        Handled { log_lines, action: Action::Forward { url, key } }
                    },
                    Some(entry) => {
                        let ghost e = s[find_key(s, key@)].1;
                        if is_expired(&entry.ttls, entry.stored_at, now) {
                            self.cache.evict(&key);
                            let url = self.pool.get_url();
                            Handled { log_lines, action: Action::Forward { url, key } }
                        } else {
                            let new_ttls = rewrite_ttls(&entry.ttls, entry.stored_at, now);
                            proof {
                                assert(new_ttls@ == rewritten_ttls(
                                    e.ttls,
                                    e.stored_at as int,
                                    now as int,
                                ));
                            }
                            match adjust_resp(&entry.bytes, &new_ttls, msg.id) {
                                Some(out) => Handled { log_lines, action: Action::Reply(out) },
                                None => {
                                    let url = self.pool.get_url();
                                    Handled { log_lines, action: Action::Forward { url, key } }
                                },
                            }
                        }
                    },
                }
            },
        }
    }

    /// Completes a forwarded exchange: a decodable reply is stored at
    /// the query's key when caching is on, stamped with `now`; the
    /// caller relays the raw bytes to the client either way. An
    /// undecodable reply is not cached.
    pub fn handle_response(&mut self, key: String, response: Vec<u8>, now: i64)
        requires
            old(self).wf(),
        ensures
            final(self).wf(),
            final(self).caching() == old(self).caching(),
            final(self).logging() == old(self).logging(),
            final(self).cache_cap() == old(self).cache_cap(),
            final(self).spec_pool() == old(self).spec_pool(),
            if old(self).caching() && parsed(response@) is Some {
                final(self).cache_model() == put_step(
                    old(self).cache_model(),
                    old(self).cache_cap(),
                    key@,
                    EntryView {
                        bytes: response@,
                        ttls: parsed(response@)->0.answer_ttls,
                        stored_at: now,
                    },
                )
            } else {
                final(self).cache_model() == old(self).cache_model()
            },
    {
        if !self.cache_enabled {
            return;
        }
        let parsed_reply = parse_message(response.as_slice());
        match parsed_reply {
            None => {},
            Some(reply) => {
                let entry = StoredEntry { bytes: response, ttls: reply.answer_ttls, stored_at: now };
                proof {
                    assert(entry@ == EntryView {
                        bytes: entry.bytes@,
                        ttls: parsed(entry.bytes@)->0.answer_ttls,
                        stored_at: now,
                    });
                }
                self.cache.store(key, entry);
            },
        }
    }

    /// How many entries the cache holds.
    pub fn cache_len(&self) -> (r: usize)
        ensures
            r == self.cache_model().len(),
    {
        self.cache.len()
    }
}

/// Renders the log line of every question record, in order.
fn query_log_lines(questions: &Vec<Question>) -> (r: Vec<String>)
    ensures
        r@.map_values(|l: String| l@) == questions@.map_values(|q: Question| q@).map_values(
            |q: QuestionView| question_text(q),
        ),
{
    let ghost goal = questions@.map_values(|q: Question| q@).map_values(
        |q: QuestionView| question_text(q),
    );
    let mut out: Vec<String> = Vec::new();
    proof {
        assert(out@.map_values(|l: String| l@) =~= goal.take(0));
    }
    let mut i: usize = 0;
    while i < questions.len()
        invariant
            i <= questions.len(),
            goal == questions@.map_values(|q: Question| q@).map_values(
                |q: QuestionView| question_text(q),
            ),
            goal.len() == questions@.len(),
            out@.len() == i,
            out@.map_values(|l: String| l@) == goal.take(i as int),
        decreases questions.len() - i,
    {
        let line = question_line(&questions[i]);
        out.push(line);
        proof {
            assert(out@.map_values(|l: String| l@) =~= goal.take(i as int + 1));
        }
        i = i + 1;
    }
    proof {
        assert(goal.take(questions@.len() as int) =~= goal);
    }
    out
}

} // verus!
