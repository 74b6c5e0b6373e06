//! robots.txt: parsing, path matching, and the per-origin cache.
//!
//! The parser works on raw bytes, line by line.  `User-agent:` lines
//! open groups; `Allow:` and `Disallow:` collect prefixes and
//! `Crawl-delay:` takes a decimal number of seconds with an optional
//! fractional part, kept here as milliseconds.  The record for a user
//! agent is the group whose token equals the agent exactly; only when
//! the file has no such group does the `*` group apply.  Comments (`#`)
//! and blank lines are skipped, and an empty `Disallow:` value is
//! ignored.  Path matching is longest-prefix: a path is forbidden when
//! some disallow prefix matches it and no strictly longer allow prefix
//! does.

use crate::text::all_digits;
use crate::text::ascii_lower_bytes;
use crate::text::bytes_eq;
use crate::text::bytes_slice_to_vec;
use crate::text::bytes_starts_with;
use crate::text::check_all_digits;
use crate::text::find_byte;
use crate::text::is_prefix_of;
use crate::text::lower_byte;
use crate::text::parse_digits_bounded;
use crate::text::spec_digits_val;
use crate::text::spec_find;
use crate::text::spec_split_nl;
use crate::text::spec_trim;
use crate::text::split_lines;
use crate::text::trim_bytes;
use vstd::prelude::*;

verus! {

/// The rules one origin's robots.txt imposes on one user agent.
pub struct RobotsRecord {
    /// `Allow:` prefixes of the applicable agent group, in file order.
    pub allow: Vec<Vec<u8>>,
    /// Non-empty `Disallow:` prefixes of that group, in file order.
    pub disallow: Vec<Vec<u8>>,
    /// The group's `Crawl-delay:` in milliseconds, when one was given.
    pub crawl_delay_ms: Option<u64>,
}

/// The mathematical content of a `RobotsRecord`.
#[verifier::ext_equal]
pub struct RobotsModel {
    pub allow: Seq<Seq<u8>>,
    pub disallow: Seq<Seq<u8>>,
    pub crawl_delay_ms: Option<u64>,
}

/// Parser state: the directives collected so far under `*` groups and
/// under exact-agent groups, which kind of group the latest
/// `User-agent:` line opened, and whether any exact-agent group was
/// seen; the exact group, when one exists, stands alone in the result.
#[verifier::ext_equal]
pub struct RobotsState {
    pub cur_star: bool,
    pub cur_exact: bool,
    pub saw_exact: bool,
    pub star: RobotsModel,
    pub exact: RobotsModel,
}

impl RobotsRecord {
    /// The record as sequences.
    pub open spec fn model(self) -> RobotsModel {
        RobotsModel {
            allow: self.allow.deep_view(),
            disallow: self.disallow.deep_view(),
            crawl_delay_ms: self.crawl_delay_ms,
        }
    }

    /// The record used when robots.txt cannot be fetched or read:
    /// everything is allowed and no delay is imposed.
    pub fn permissive() -> (r: RobotsRecord)
        ensures
            r.model() == (RobotsModel {
                allow: Seq::<Seq<u8>>::empty(),
                disallow: Seq::<Seq<u8>>::empty(),
                crawl_delay_ms: None::<u64>,
            }),
    {
        let r = RobotsRecord { allow: Vec::new(), disallow: Vec::new(), crawl_delay_ms: None };
        proof {
            assert(r.allow.deep_view() =~~= Seq::<Seq<u8>>::empty());
            assert(r.disallow.deep_view() =~~= Seq::<Seq<u8>>::empty());
        }
        r
    }
}

/// Cap on the seconds part of a crawl delay, chosen so that
/// `cap * 1000 + 999` still fits in a `u64`.
pub const DELAY_SECS_CAP: u64 = 18446744073709550;

/// The bytes of `user-agent`.
pub open spec fn kw_user_agent() -> Seq<u8> {
    seq![117u8, 115u8, 101u8, 114u8, 45u8, 97u8, 103u8, 101u8, 110u8, 116u8]
}

/// The bytes of `allow`.
pub open spec fn kw_allow() -> Seq<u8> {
    seq![97u8, 108u8, 108u8, 111u8, 119u8]
}

/// The bytes of `disallow`.
pub open spec fn kw_disallow() -> Seq<u8> {
    seq![100u8, 105u8, 115u8, 97u8, 108u8, 108u8, 111u8, 119u8]
}

/// The bytes of `crawl-delay`.
pub open spec fn kw_crawl_delay() -> Seq<u8> {
    seq![99u8, 114u8, 97u8, 119u8, 108u8, 45u8, 100u8, 101u8, 108u8, 97u8, 121u8]
}

/// Milliseconds of the fractional digits of a crawl delay: the first
/// three fractional digits, scaled to thousandths.
pub open spec fn spec_frac_ms(fp: Seq<u8>) -> nat {
    if fp.len() == 0 {
        0
    } else if fp.len() == 1 {
        spec_digits_val(fp) * 100
    } else if fp.len() == 2 {
        spec_digits_val(fp) * 10
    } else {
        spec_digits_val(fp.take(3))
    }
}

/// A `Crawl-delay:` value parsed into milliseconds: decimal digits with
/// at most one dot, no sign, no exponent; the seconds part is bounded so
/// that the result fits in a `u64`.
pub open spec fn spec_delay_ms(v: Seq<u8>) -> Option<u64> {
    let cut = spec_find(v, 46);
    let ip = match cut {
        None => v,
        Some(i) => v.take(i as int),
    };
    let fp = match cut {
        None => Seq::<u8>::empty(),
        Some(i) => v.subrange(i + 1int, v.len() as int),
    };
    if ip.len() == 0 && fp.len() == 0 {
        None
    } else if !all_digits(ip) || !all_digits(fp) {
        None
    } else if spec_digits_val(ip) > DELAY_SECS_CAP {
        None
    } else {
        // the value is at most cap * 1000 + 999, which fits in u64
        Some((spec_digits_val(ip) * 1000 + spec_frac_ms(fp)) as u64)
    }
}

/// A run of at most three digits is worth at most 999.
proof fn lemma_digits_val_len3(s: Seq<u8>)
    requires
        all_digits(s),
    ensures
        s.len() == 0 ==> spec_digits_val(s) == 0,
        s.len() <= 1 ==> spec_digits_val(s) <= 9,
        s.len() <= 2 ==> spec_digits_val(s) <= 99,
        s.len() <= 3 ==> spec_digits_val(s) <= 999,
    decreases s.len(),
{
    if s.len() > 0 {
        assert(48 <= s[s.len() - 1] <= 57);
        assert(all_digits(s.drop_last())) by {
            assert(forall|i: int| 0 <= i < s.len() - 1 ==> s.drop_last()[i] == s[i]);
        }
        lemma_digits_val_len3(s.drop_last());
    }
}

/// Parse a `Crawl-delay:` value into milliseconds.
pub fn parse_delay_ms(v: &[u8]) -> (r: Option<u64>)
    ensures
        r == spec_delay_ms(v@),
{
    let n = v.len();
    proof {
        crate::text::lemma_spec_find(v@, 46);
    }
    let cut = find_byte(v, 46);
    let ip: Vec<u8>;
    let fp: Vec<u8>;
    match cut {
        Some(i) => {
            ip = bytes_slice_to_vec(v, 0, i);
            fp = bytes_slice_to_vec(v, i + 1, n);
            proof {
                assert(ip@ =~= v@.take(i as int));
            }
        },
        None => {
            ip = bytes_slice_to_vec(v, 0, n);
            fp = Vec::new();
            proof {
                assert(ip@ =~= v@);
            }
        },
    }
    if ip.len() == 0 && fp.len() == 0 {
        return None;
    }
    if !check_all_digits(ip.as_slice()) {
        return None;
    }
    if !check_all_digits(fp.as_slice()) {
        return None;
    }
    let secs: u64;
    match parse_digits_bounded(ip.as_slice(), DELAY_SECS_CAP) {
        Some(s) => {
            secs = s;
        },
        None => {
            if ip.len() == 0 {
                secs = 0;
            } else {
                return None;
            }
        },
    }
    let fplen = fp.len();
    let f3len = if fplen > 3 {
        3
    } else {
        fplen
    };
    let mut frac: u64 = 0;
    if f3len > 0 {
        let f3 = bytes_slice_to_vec(fp.as_slice(), 0, f3len);
        proof {
            assert(all_digits(f3@)) by {
                assert(forall|i: int| 0 <= i < f3@.len() ==> f3@[i] == fp@[i]);
            }
            lemma_digits_val_len3(f3@);
        }
        let raw = parse_digits_bounded(f3.as_slice(), 999).unwrap();
        if fplen == 1 {
            proof {
                assert(f3@ =~= fp@);
            }
            frac = raw * 100;
        } else if fplen == 2 {
            proof {
                assert(f3@ =~= fp@);
            }
            frac = raw * 10;
        } else {
            proof {
                assert(f3@ =~= fp@.take(3));
            }
            frac = raw;
        }
    }
    proof {
        assert(frac == spec_frac_ms(fp@));
        assert(frac <= 999);
    }
    let ms = secs * 1000 + frac;
    Some(ms)
}

/// One directive applied to one group's model.
pub open spec fn spec_apply_directive(m: RobotsModel, key: Seq<u8>, value: Seq<u8>) -> RobotsModel {
    if key == kw_allow() {
        RobotsModel { allow: m.allow.push(value), ..m }
    } else if key == kw_disallow() {
        if value.len() > 0 {
            RobotsModel { disallow: m.disallow.push(value), ..m }
        } else {
            m
        }
    } else if key == kw_crawl_delay() {
        match spec_delay_ms(value) {
            Some(d) => RobotsModel { crawl_delay_ms: Some(d), ..m },
            None => m,
        }
    } else {
        m
    }
}

/// One line of robots.txt applied to the parser state.  A `User-agent:`
/// line opens a group; any other directive goes to the `*` collection,
/// the exact collection, both, or neither, according to the open group.
pub open spec fn spec_robots_step(st: RobotsState, raw: Seq<u8>, agent: Seq<u8>) -> RobotsState {
    let line = spec_trim(raw);
    if line.len() == 0 || line[0] == 35 {
        st
    } else {
        match spec_find(line, 58) {
            None => st,
            Some(ci) => {
                let key = spec_trim(line.take(ci as int)).map_values(|b: u8| lower_byte(b));
                let value = spec_trim(line.subrange(ci + 1int, line.len() as int));
                if key == kw_user_agent() {
                    RobotsState {
                        cur_star: value == seq![42u8],
                        cur_exact: value == agent,
                        saw_exact: st.saw_exact || value == agent,
                        star: st.star,
                        exact: st.exact,
                    }
                } else {
                    RobotsState {
                        star: if st.cur_star {
                            spec_apply_directive(st.star, key, value)
                        } else {
                            st.star
                        },
                        exact: if st.cur_exact {
                            spec_apply_directive(st.exact, key, value)
                        } else {
                            st.exact
                        },
                        ..st
                    }
                }
            },
        }
    }
}

/// The empty model.
pub open spec fn spec_empty_model() -> RobotsModel {
    RobotsModel { allow: Seq::empty(), disallow: Seq::empty(), crawl_delay_ms: None }
}

/// The parser state before any line: no group open, nothing collected.
/// Directives before the first `User-agent:` line belong to no group.
pub open spec fn spec_robots_init() -> RobotsState {
    RobotsState {
        cur_star: false,
        cur_exact: false,
        saw_exact: false,
        star: spec_empty_model(),
        exact: spec_empty_model(),
    }
}

/// The parser state after a sequence of lines.
pub open spec fn spec_robots_fold(st: RobotsState, lines: Seq<Seq<u8>>, agent: Seq<u8>) -> RobotsState
    decreases lines.len(),
{
    if lines.len() == 0 {
        st
    } else {
        spec_robots_fold(spec_robots_step(st, lines[0], agent), lines.drop_first(), agent)
    }
}

/// The record that a robots.txt body yields for one user agent: the
/// exact-agent group when the file has one, else the `*` group.
pub open spec fn spec_parse_robots(content: Seq<u8>, agent: Seq<u8>) -> RobotsModel {
    let st = spec_robots_fold(spec_robots_init(), spec_split_nl(content), agent);
    if st.saw_exact {
        st.exact
    } else {
        st.star
    }
}

/// Parse a robots.txt body for one user agent.
pub fn parse_robots(content: &[u8], user_agent: &[u8]) -> (r: RobotsRecord)
    ensures
        r.model() == spec_parse_robots(content@, user_agent@),
{
    let lines = split_lines(content);
    let ghost lines_v = lines.deep_view();
    let kw_ua: Vec<u8> = vec![117u8, 115u8, 101u8, 114u8, 45u8, 97u8, 103u8, 101u8, 110u8, 116u8];
    let kw_al: Vec<u8> = vec![97u8, 108u8, 108u8, 111u8, 119u8];
    let kw_dis: Vec<u8> = vec![100u8, 105u8, 115u8, 97u8, 108u8, 108u8, 111u8, 119u8];
    let kw_cd: Vec<u8> = vec![99u8, 114u8, 97u8, 119u8, 108u8, 45u8, 100u8, 101u8, 108u8, 97u8, 121u8];
    proof {
        assert(kw_ua@ =~= kw_user_agent());
        assert(kw_al@ =~= kw_allow());
        assert(kw_dis@ =~= kw_disallow());
        assert(kw_cd@ =~= kw_crawl_delay());
    }
    let mut cur_star = false;
    let mut cur_exact = false;
    let mut saw_exact = false;
    let mut star_allow: Vec<Vec<u8>> = Vec::new();
    let mut star_disallow: Vec<Vec<u8>> = Vec::new();
    let mut star_delay: Option<u64> = None;
    let mut exact_allow: Vec<Vec<u8>> = Vec::new();
    let mut exact_disallow: Vec<Vec<u8>> = Vec::new();
    let mut exact_delay: Option<u64> = None;
    proof {
        assert(star_allow.deep_view() =~~= Seq::<Seq<u8>>::empty());
        assert(star_disallow.deep_view() =~~= Seq::<Seq<u8>>::empty());
        assert(exact_allow.deep_view() =~~= Seq::<Seq<u8>>::empty());
        assert(exact_disallow.deep_view() =~~= Seq::<Seq<u8>>::empty());
        assert(lines_v.skip(0) =~= lines_v);
        assert(RobotsState {
            cur_star,
            cur_exact,
            saw_exact,
            star: RobotsModel {
                allow: star_allow.deep_view(),
                disallow: star_disallow.deep_view(),
                crawl_delay_ms: star_delay,
            },
            exact: RobotsModel {
                allow: exact_allow.deep_view(),
                disallow: exact_disallow.deep_view(),
                crawl_delay_ms: exact_delay,
            },
        } =~~= spec_robots_init());
    }
    let nl = lines.len();
    let mut i: usize = 0;
    while i < nl
        invariant
            0 <= i <= nl == lines@.len(),
            lines_v == lines.deep_view(),
            kw_ua@ == kw_user_agent(),
            kw_al@ == kw_allow(),
            kw_dis@ == kw_disallow(),
            kw_cd@ == kw_crawl_delay(),
            spec_robots_fold(
                RobotsState {
                    cur_star,
                    cur_exact,
                    saw_exact,
                    star: RobotsModel {
                        allow: star_allow.deep_view(),
                        disallow: star_disallow.deep_view(),
                        crawl_delay_ms: star_delay,
                    },
                    exact: RobotsModel {
                        allow: exact_allow.deep_view(),
                        disallow: exact_disallow.deep_view(),
                        crawl_delay_ms: exact_delay,
                    },
                },
                lines_v.skip(i as int),
                user_agent@,
            ) == spec_robots_fold(spec_robots_init(), lines_v, user_agent@),
        decreases nl - i,
    {
        let ghost st0 = RobotsState {
            cur_star,
            cur_exact,
            saw_exact,
            star: RobotsModel {
                allow: star_allow.deep_view(),
                disallow: star_disallow.deep_view(),
                crawl_delay_ms: star_delay,
            },
            exact: RobotsModel {
                allow: exact_allow.deep_view(),
                disallow: exact_disallow.deep_view(),
                crawl_delay_ms: exact_delay,
            },
        };
        let ghost raw = lines_v[i as int];
        proof {
            assert(lines@[i as int].deep_view() =~= lines@[i as int]@);
            assert(lines@[i as int]@ == raw);
        }
        let line = trim_bytes(lines[i].as_slice());
        if line.len() > 0 && line[0] != 35 {
            proof {
                crate::text::lemma_spec_find(line@, 58);
            }
            match find_byte(line.as_slice(), 58) {
                None => {},
                Some(ci) => {
                    let rawkey = bytes_slice_to_vec(line.as_slice(), 0, ci);
                    proof {
                        assert(rawkey@ =~= line@.take(ci as int));
                    }
                    let tkey = trim_bytes(rawkey.as_slice());
                    let key = ascii_lower_bytes(tkey.as_slice());
                    let rawval = bytes_slice_to_vec(line.as_slice(), ci + 1, line.len());
                    proof {
                        assert(rawval@ =~= line@.subrange(ci + 1int, line@.len() as int));
                    }
                    let value = trim_bytes(rawval.as_slice());
                    if bytes_eq(key.as_slice(), kw_ua.as_slice()) {
                        let star_tok = value.len() == 1 && {
                            let b = value[0];
                            b == 42
                        };
                        proof {
                            if star_tok {
                                assert(value@ =~= seq![42u8]);
                            } else {
                                assert(value@ != seq![42u8]);
                            }
                        }
                        let exact_tok = bytes_eq(value.as_slice(), user_agent);
                        cur_star = star_tok;
                        cur_exact = exact_tok;
                        saw_exact = saw_exact || exact_tok;
                    } else {
                        let is_al = bytes_eq(key.as_slice(), kw_al.as_slice());
                        let is_dis = bytes_eq(key.as_slice(), kw_dis.as_slice());
                        let is_cd = bytes_eq(key.as_slice(), kw_cd.as_slice());
                        if cur_star {
                            let ghost before = st0.star;
                            if is_al {
                                let ghost pushed = value@;
                                let copy = bytes_slice_to_vec(value.as_slice(), 0, value.len());
                                star_allow.push(copy);
                                proof {
                                    assert(star_allow.deep_view() =~~= before.allow.push(pushed));
                                }
                            } else if is_dis {
                                if value.len() > 0 {
                                    let ghost pushed = value@;
                                    let copy = bytes_slice_to_vec(
                                        value.as_slice(),
                                        0,
                                        value.len(),
                                    );
                                    star_disallow.push(copy);
                                    proof {
                                        assert(star_disallow.deep_view()
                                            =~~= before.disallow.push(pushed));
                                    }
                                }
                            } else if is_cd {
                                match parse_delay_ms(value.as_slice()) {
                                    Some(d) => {
                                        star_delay = Some(d);
                                    },
                                    None => {},
                                }
                            }
                            proof {
                                assert(RobotsModel {
                                    allow: star_allow.deep_view(),
                                    disallow: star_disallow.deep_view(),
                                    crawl_delay_ms: star_delay,
                                } =~~= spec_apply_directive(before, key@, value@));
                            }
                        }
                        if cur_exact {
                            let ghost before = st0.exact;
                            if is_al {
                                let ghost pushed = value@;
                                exact_allow.push(value);
                                proof {
                                    assert(exact_allow.deep_view() =~~= before.allow.push(pushed));
                                }
                            } else if is_dis {
                                if value.len() > 0 {
                                    let ghost pushed = value@;
                                    exact_disallow.push(value);
                                    proof {
                                        assert(exact_disallow.deep_view()
                                            =~~= before.disallow.push(pushed));
                                    }
                                }
                            } else if is_cd {
                                match parse_delay_ms(value.as_slice()) {
                                    Some(d) => {
                                        exact_delay = Some(d);
                                    },
                                    None => {},
                                }
                            }
                            proof {
                                assert(RobotsModel {
                                    allow: exact_allow.deep_view(),
                                    disallow: exact_disallow.deep_view(),
                                    crawl_delay_ms: exact_delay,
                                } =~~= spec_apply_directive(before, key@, value@));
                            }
                        }
                    }
                },
            }
        }
        proof {
            let st1 = RobotsState {
                cur_star,
                cur_exact,
                saw_exact,
                star: RobotsModel {
                    allow: star_allow.deep_view(),
                    disallow: star_disallow.deep_view(),
                    crawl_delay_ms: star_delay,
                },
                exact: RobotsModel {
                    allow: exact_allow.deep_view(),
                    disallow: exact_disallow.deep_view(),
                    crawl_delay_ms: exact_delay,
                },
            };
            assert(st1 =~~= spec_robots_step(st0, raw, user_agent@));
            assert(lines_v.skip(i as int)[0] == raw);
            assert(lines_v.skip(i as int).drop_first() =~= lines_v.skip(i + 1));
        }
        i = i + 1;
    }
    proof {
        assert(lines_v.skip(nl as int) =~= Seq::<Seq<u8>>::empty());
    }
    if saw_exact {
        RobotsRecord {
            allow: exact_allow,
            disallow: exact_disallow,
            crawl_delay_ms: exact_delay,
        }
    } else {
        RobotsRecord { allow: star_allow, disallow: star_disallow, crawl_delay_ms: star_delay }
    }
}

/// Some allow prefix matches `path` and is strictly longer than `dislen`.
pub open spec fn spec_allow_overrides(allow: Seq<Seq<u8>>, path: Seq<u8>, dislen: nat) -> bool {
    exists|j: int|
        0 <= j < allow.len() && is_prefix_of(#[trigger] allow[j], path) && allow[j].len() > dislen
}

/// Whether a record permits fetching `path`: longest-prefix matching.
/// The path is forbidden when some disallow prefix matches it and no
/// strictly longer allow prefix does; equivalently, every matching
/// disallow prefix — the longest included — must be overridden by a
/// strictly longer matching allow prefix.
pub open spec fn spec_path_allowed(m: RobotsModel, path: Seq<u8>) -> bool {
    forall|i: int|
        0 <= i < m.disallow.len() && is_prefix_of(#[trigger] m.disallow[i], path)
            ==> spec_allow_overrides(m.allow, path, m.disallow[i].len())
}

impl RobotsRecord {
    /// Whether this record permits fetching `path`.
    pub fn is_path_allowed(&self, path: &[u8]) -> (r: bool)
        ensures
            r == spec_path_allowed(self.model(), path@),
    {
        let ghost dv = self.disallow.deep_view();
        let ghost av = self.allow.deep_view();
        let nd = self.disallow.len();
        let mut i: usize = 0;
        while i < nd
            invariant
                0 <= i <= nd == self.disallow@.len(),
                dv == self.disallow.deep_view(),
                av == self.allow.deep_view(),
                forall|t: int|
                    0 <= t < i && is_prefix_of(#[trigger] dv[t], path@) ==> spec_allow_overrides(
                        av,
                        path@,
                        dv[t].len(),
                    ),
            decreases nd - i,
        {
            proof {
                assert(self.disallow@[i as int].deep_view() =~= self.disallow@[i as int]@);
            }
            if bytes_starts_with(path, self.disallow[i].as_slice()) {
                let dlen = self.disallow[i].len();
                let na = self.allow.len();
                let mut j: usize = 0;
                let mut overridden = false;
                while j < na && !overridden
                    invariant
                        0 <= j <= na == self.allow@.len(),
                        0 <= i < nd == self.disallow@.len(),
                        dv == self.disallow.deep_view(),
                        av == self.allow.deep_view(),
                        dlen == dv[i as int].len(),
                        !overridden ==> forall|t: int|
                            0 <= t < j ==> !(is_prefix_of(#[trigger] av[t], path@) && av[t].len()
                                > dlen),
                        overridden ==> spec_allow_overrides(av, path@, dlen as nat),
                    decreases na - j + (if overridden {
                        0int
                    } else {
                        1int
                    }),
                {
                    proof {
                        assert(self.allow@[j as int].deep_view() =~= self.allow@[j as int]@);
                    }
                    if bytes_starts_with(path, self.allow[j].as_slice()) && self.allow[j].len()
                        > dlen {
                        assert(is_prefix_of(av[j as int], path@) && av[j as int].len() > dlen);
                        overridden = true;
                    } else {
                        j = j + 1;
                    }
                }
                if !overridden {
                    // this matching disallow prefix has no longer allow
                    proof {
                        assert(!spec_allow_overrides(av, path@, dlen as nat));
                        assert(self.model().disallow == dv);
                        assert(self.model().allow == av);
                        assert(is_prefix_of(self.model().disallow[i as int], path@));
                        assert(!spec_allow_overrides(
                            self.model().allow,
                            path@,
                            self.model().disallow[i as int].len(),
                        ));
                    }
                    return false;
                }
            }
            i = i + 1;
        }
        true
    }
}

/// First-match association lookup, the model of the robots cache.
pub open spec fn spec_assoc_lookup(
    keys: Seq<Seq<char>>,
    vals: Seq<RobotsModel>,
    k: Seq<char>,
) -> Option<RobotsModel>
    decreases keys.len(),
{
    if keys.len() == 0 || vals.len() == 0 {
        None
    } else if keys[0] == k {
        Some(vals[0])
    } else {
        spec_assoc_lookup(keys.drop_first(), vals.drop_first(), k)
    }
}

/// A lookup misses exactly when no key equals `q`.
pub proof fn lemma_assoc_lookup_none(keys: Seq<Seq<char>>, vals: Seq<RobotsModel>, q: Seq<char>)
    requires
        keys.len() == vals.len(),
    ensures
        (spec_assoc_lookup(keys, vals, q) is None) <==> (forall|t: int|
            0 <= t < keys.len() ==> #[trigger] keys[t] != q),
    decreases keys.len(),
{
    if keys.len() > 0 && keys[0] != q {
        lemma_assoc_lookup_none(keys.drop_first(), vals.drop_first(), q);
        assert(forall|t: int| 1 <= t < keys.len() ==> #[trigger] keys[t] == keys.drop_first()[t - 1]);
    }
}

/// Appending a fresh binding leaves old hits alone and serves `k` last.
pub proof fn lemma_assoc_lookup_push(
    keys: Seq<Seq<char>>,
    vals: Seq<RobotsModel>,
    k: Seq<char>,
    v: RobotsModel,
    q: Seq<char>,
)
    requires
        keys.len() == vals.len(),
    ensures
        spec_assoc_lookup(keys.push(k), vals.push(v), q) == (match spec_assoc_lookup(
            keys,
            vals,
            q,
        ) {
            Some(x) => Some(x),
            None => if q == k {
                Some(v)
            } else {
                None
            },
        }),
    decreases keys.len(),
{
    if keys.len() == 0 {
        assert(keys.push(k)[0] == k);
        assert(vals.push(v)[0] == v);
    } else {
        assert(keys.push(k)[0] == keys[0]);
        assert(vals.push(v)[0] == vals[0]);
        if keys[0] != q {
            assert(keys.push(k).drop_first() =~= keys.drop_first().push(k));
            assert(vals.push(v).drop_first() =~= vals.drop_first().push(v));
            lemma_assoc_lookup_push(keys.drop_first(), vals.drop_first(), k, v, q);
        }
    }
}

/// Per-origin robots.txt cache.  An origin is written once, when its
/// robots.txt is first obtained; later queries only read.
pub struct RobotsChecker {
    origins: Vec<String>,
    records: Vec<RobotsRecord>,
}

impl RobotsChecker {
    /// The cached origins, as character sequences.
    pub closed spec fn origin_views(self) -> Seq<Seq<char>> {
        self.origins.deep_view()
    }

    /// The cached records, as models.
    pub closed spec fn record_models(self) -> Seq<RobotsModel> {
        self.records@.map_values(|r: RobotsRecord| r.model())
    }

    /// Origins and records line up, and each origin is cached once.
    pub closed spec fn wf(self) -> bool {
        self.origins@.len() == self.records@.len() && self.origin_views().no_duplicates()
    }

    /// The model cached for `o`, if any.
    pub closed spec fn lookup(self, o: Seq<char>) -> Option<RobotsModel> {
        spec_assoc_lookup(self.origin_views(), self.record_models(), o)
    }

    /// An empty cache.
    pub fn new() -> (r: RobotsChecker)
        ensures
            r.wf(),
            forall|o: Seq<char>| #[trigger] r.lookup(o) is None,
    {
        let r = RobotsChecker { origins: Vec::new(), records: Vec::new() };
        proof {
            assert(r.origin_views() =~~= Seq::<Seq<char>>::empty());
        }
        r
    }

    /// The cached record for an origin, if one was inserted.
    pub fn get(&self, origin: &str) -> (r: Option<&RobotsRecord>)
        requires
            self.wf(),
        ensures
            match r {
                Some(rec) => self.lookup(origin@) == Some(rec.model()),
                None => self.lookup(origin@) is None,
            },
    {
        let ghost ov = self.origin_views();
        let ghost rm = self.record_models();
        let n = self.origins.len();
        let mut i: usize = 0;
        proof {
            assert(ov.skip(0) =~= ov);
            assert(rm.skip(0) =~= rm);
        }
        while i < n
            invariant
                0 <= i <= n == self.origins@.len() == self.records@.len(),
                ov == self.origin_views(),
                rm == self.record_models(),
                spec_assoc_lookup(ov.skip(i as int), rm.skip(i as int), origin@)
                    == self.lookup(origin@),
            decreases n - i,
        {
            proof {
                assert(ov.skip(i as int)[0] == ov[i as int]);
                assert(rm.skip(i as int)[0] == rm[i as int]);
                assert(self.origins@[i as int].deep_view() == self.origins@[i as int]@);
                assert(ov.skip(i as int).drop_first() =~= ov.skip(i + 1));
                assert(rm.skip(i as int).drop_first() =~= rm.skip(i + 1));
            }
            if crate::urlnorm::str_eq(self.origins[i].as_str(), origin) {
                return Some(&self.records[i]);
            }
            i = i + 1;
        }
        proof {
            assert(ov.skip(n as int) =~= Seq::<Seq<char>>::empty());
        }
        None
    }

    /// Cache a record for an origin.  A second insertion for the same
    /// origin is ignored: the cache is write-once per origin.
    pub fn insert(&mut self, origin: String, record: RobotsRecord)
        requires
            old(self).wf(),
        ensures
            final(self).wf(),
            old(self).lookup(origin@) is Some ==> *final(self) == *old(self),
            old(self).lookup(origin@) is None ==> final(self).lookup(origin@) == Some(
                record.model(),
            ) && (forall|o: Seq<char>|
                o != origin@ ==> #[trigger] final(self).lookup(o) == old(self).lookup(o)),
    {
        let present = self.get(origin.as_str()).is_some();
        if present {
            return ;
        }
        let ghost ov = self.origin_views();
        let ghost rm = self.record_models();
        let ghost oview = origin@;
        let ghost model = record.model();
        self.origins.push(origin);
        self.records.push(record);
        proof {
            assert(self.origin_views() =~~= ov.push(oview));
            assert(self.record_models() =~~= rm.push(model));
            lemma_assoc_lookup_none(ov, rm, oview);
            assert(self.origin_views().no_duplicates()) by {
                assert(forall|t: int|
                    0 <= t < ov.len() ==> #[trigger] ov.push(oview)[t] == ov[t]);
                assert(ov.push(oview)[ov.len() as int] == oview);
            }
            assert forall|o: Seq<char>| #[trigger]
                self.lookup(o) == (match spec_assoc_lookup(ov, rm, o) {
                    Some(x) => Some(x),
                    None => if o == oview {
                        Some(model)
                    } else {
                        None
                    },
                }) by {
                lemma_assoc_lookup_push(ov, rm, oview, model, o);
            }
        }
    }

    /// Whether `url` may be fetched: `Some(b)` when `url` parses and its
    /// origin is cached, `None` otherwise (the caller then fetches and
    /// caches robots.txt first, or treats an unparseable URL as its own
    /// error).  The record already belongs to one user agent, so the
    /// agent parameter does not influence the lookup.
    pub fn is_allowed(&self, url: &str, _user_agent: &str) -> (r: Option<bool>)
        requires
            self.wf(),
        ensures
            r is Some <==> crate::urlnorm::spec_url_ok(url@) && self.lookup(
                crate::urlnorm::spec_origin_of(url@),
            ) is Some,
            r matches Some(b) ==> (match self.lookup(crate::urlnorm::spec_origin_of(url@)) {
                Some(m) => b == spec_path_allowed(
                    m,
                    vstd::utf8::encode_utf8(crate::urlnorm::spec_url_path(url@)),
                ),
                None => false,
            }),
    {
        match crate::urlnorm::parse_url_parts(url) {
            None => None,
            Some(parts) => {
                let mut origin = String::new();
                origin.append(parts.scheme.as_str());
                origin.append("://");
                origin.append(parts.host.as_str());
                match self.get(origin.as_str()) {
                    None => None,
                    Some(rec) => Some(rec.is_path_allowed(parts.path.as_str().as_bytes())),
                }
            },
        }
    }

    /// The cached crawl delay for an origin, in milliseconds.
    pub fn get_crawl_delay(&self, origin: &str, _user_agent: &str) -> (r: Option<u64>)
        requires
            self.wf(),
        ensures
            r == (match self.lookup(origin@) {
                Some(m) => m.crawl_delay_ms,
                None => None,
            }),
    {
        match self.get(origin) {
            Some(rec) => rec.crawl_delay_ms,
            None => None,
        }
    }
}

/// Parsing is a pure function of the file and the agent: two records
/// built from the same robots.txt body for the same user agent are equal.
pub proof fn lemma_parse_robots_deterministic(
    r1: RobotsModel,
    r2: RobotsModel,
    content: Seq<u8>,
    agent: Seq<u8>,
)
    requires
        r1 == spec_parse_robots(content, agent),
        r2 == spec_parse_robots(content, agent),
    ensures
        r1 == r2,
{
}

} // verus!
