//! The admin dialogue: a per-admin session that selects a user by page link
//! and moves them to another stage. Each admin's session is a small state
//! machine; the lookup and the delivery of replies happen at the caller's
//! edge.

use vstd::prelude::*;
use vstd::string::*;
use crate::text::{occurs_at, spec_occurs_at, spec_u64_dec, starts_with_str, str_eq, u64_to_string};
use crate::vkapi::users::{spec_describe, VkUser};

verus! {

/// The prompt shown whenever no user is being edited.
pub const USAGE_START: &'static str =
    "Отправь ссылку на страницу пользователя в формате vk.com/name";

/// The prompt shown for an unusable stage number.
pub const STAGE_PROMPT: &'static str =
    "Пришли номер этапа как число, например, \"этап 2\"";

/// Relies on str::to_lowercase: the lowercased text depends on the
/// characters alone.
pub uninterp spec fn spec_lower(s: Seq<char>) -> Seq<char>;

/// Relies on str::trim: the whitespace-trimmed text depends on the
/// characters alone.
pub uninterp spec fn spec_trim(s: Seq<char>) -> Seq<char>;

/// Relies on str::to_lowercase (see `spec_lower`).
#[verifier::external_body]
fn lowercase(s: &str) -> (r: String)
    ensures
        r@ == spec_lower(s@),
{
    s.to_lowercase()
}

/// Relies on str::trim (see `spec_trim`).
#[verifier::external_body]
fn trim(s: &str) -> (r: String)
    ensures
        r@ == spec_trim(s@),
{
    s.trim().to_owned()
}

/// `s` with every trailing slash removed.
pub open spec fn spec_trim_end_slashes(s: Seq<char>) -> Seq<char>
    decreases s.len(),
{
    if s.len() > 0 && s.last() == '/' {
        spec_trim_end_slashes(s.drop_last())
    } else {
        s
    }
}

/// `s` with the non-overlapping occurrences of `pat` removed, scanning from
/// the left.
pub open spec fn spec_remove_all(s: Seq<char>, pat: Seq<char>) -> Seq<char>
    decreases s.len(),
    when pat.len() >= 1
{
    if s.len() == 0 {
        s
    } else if pat.len() <= s.len() && s.take(pat.len() as int) == pat {
        spec_remove_all(s.skip(pat.len() as int), pat)
    } else {
        seq![s[0]] + spec_remove_all(s.drop_first(), pat)
    }
}

/// Whether `c` is a decimal digit.
pub open spec fn spec_is_digit(c: char) -> bool {
    '0' as int <= c as int && c as int <= '9' as int
}

/// The value of a run of decimal digits, most significant first.
pub open spec fn spec_digits_val(s: Seq<char>) -> int
    decreases s.len(),
{
    if s.len() == 0 {
        0
    } else {
        spec_digits_val(s.drop_last()) * 10 + (s.last() as int - '0' as int)
    }
}

/// The digits of a decimal string: what follows an optional leading plus.
pub open spec fn spec_parse_body(s: Seq<char>) -> Seq<char> {
    if s.len() >= 1 && s[0] == '+' {
        s.drop_first()
    } else {
        s
    }
}

/// The number parsed from a decimal string: an optional leading plus, then
/// one or more digits, rejecting a value beyond `u64`.
pub open spec fn spec_parse_u64(s: Seq<char>) -> Option<u64> {
    let body = spec_parse_body(s);
    if body.len() == 0 {
        None
    } else if exists|i: int| 0 <= i < body.len() && !spec_is_digit(#[trigger] body[i]) {
        None
    } else if spec_digits_val(body) > u64::MAX {
        None
    } else {
        Some(spec_digits_val(body) as u64)
    }
}

/// A digit run's value never shrinks as the run grows.
proof fn lemma_digits_val_nonneg(s: Seq<char>)
    requires
        forall|i: int| 0 <= i < s.len() ==> spec_is_digit(#[trigger] s[i]),
    ensures
        spec_digits_val(s) >= 0,
    decreases s.len(),
{
    if s.len() > 0 {
        assert forall|i: int| 0 <= i < s.drop_last().len() implies spec_is_digit(
            #[trigger] s.drop_last()[i],
        ) by {
            assert(s.drop_last()[i] == s[i]);
        }
        lemma_digits_val_nonneg(s.drop_last());
    }
}

/// Extending a digit run never shrinks its value.
proof fn lemma_digits_val_mono(s: Seq<char>, i: int)
    requires
        0 <= i <= s.len(),
        forall|k: int| 0 <= k < s.len() ==> spec_is_digit(#[trigger] s[k]),
    ensures
        spec_digits_val(s.take(i)) <= spec_digits_val(s),
    decreases s.len() - i,
{
    if i == s.len() {
        assert(s.take(i) =~= s);
    } else {
        lemma_digits_val_mono(s, i + 1);
        assert(s.take(i + 1).drop_last() =~= s.take(i));
        assert(s.take(i + 1).last() == s[i]);
        assert forall|k: int| 0 <= k < s.take(i).len() implies spec_is_digit(
            #[trigger] s.take(i)[k],
        ) by {
            assert(s.take(i)[k] == s[k]);
        }
        lemma_digits_val_nonneg(s.take(i));
        assert(spec_digits_val(s.take(i + 1)) == spec_digits_val(s.take(i)) * 10 + (s[i] as int
            - '0' as int));
        assert(spec_digits_val(s.take(i)) <= spec_digits_val(s.take(i + 1)));
    }
}

/// Parses a decimal number, as `spec_parse_u64` describes.
pub fn parse_u64(s: &str) -> (r: Option<u64>)
    ensures
        r == spec_parse_u64(s@),
{
    let n = s.unicode_len();
    let start: usize = if n >= 1 && s.get_char(0) == '+' {
        1
    } else {
        0
    };
    proof {
        if start == 1 {
            assert(s@.drop_first() =~= s@.skip(1));
        } else {
            assert(s@.skip(0) =~= s@);
        }
        assert(spec_parse_body(s@) == s@.skip(start as int));
    }
    let ghost body: Seq<char> = s@.skip(start as int);
    if n == start {
        proof {
            assert(body.len() == 0);
        }
        return None;
    }
    let mut val: u64 = 0;
    let mut i: usize = start;
    while i < n
        invariant
            n == s@.len(),
            start <= i <= n,
            start <= 1,
            n > start,
            body == s@.skip(start as int),
            body == spec_parse_body(s@),
            body.len() == n - start,
            forall|k: int| 0 <= k < i - start ==> spec_is_digit(#[trigger] body[k]),
            val == spec_digits_val(body.take(i - start)),
        decreases n - i,
    {
        let c = s.get_char(i);
        let cu: u32 = c as u32;
        if cu < '0' as u32 || cu > '9' as u32 {
            proof {
                assert(body[i - start] == s@[i as int]);
                assert(!spec_is_digit(body[i - start]));
            }
            return None;
        }
        let d: u64 = (cu - '0' as u32) as u64;
        proof {
            assert(body[i - start] == s@[i as int]);
            assert(spec_is_digit(body[i - start]));
            assert(d == (s@[i as int] as int - '0' as int));
            assert(d <= 9);
        }
        if val > (u64::MAX - d) / 10 {
            proof {
                assert(body.take(i + 1 - start).drop_last() =~= body.take(i - start));
                assert(body.take(i + 1 - start).last() == body[i - start]);
                assert(spec_digits_val(body.take(i + 1 - start)) == val * 10 + d);
                assert(val * 10 + d > u64::MAX) by (nonlinear_arith)
                    requires
                        val > (u64::MAX - d) / 10,
                        d <= 9,
                ;
                if forall|k: int| 0 <= k < body.len() ==> spec_is_digit(#[trigger] body[k]) {
                    lemma_digits_val_mono(body, i + 1 - start);
                    assert(spec_digits_val(body) > u64::MAX);
                }
            }
            return None;
        }
        val = val * 10 + d;
        proof {
            assert(body.take(i + 1 - start).drop_last() =~= body.take(i - start));
            assert(body.take(i + 1 - start).last() == body[i - start]);
        }
        i = i + 1;
    }
    proof {
        assert(body.take(n - start) =~= body);
    }
    Some(val)
}

/// The characters of `s` from position `from`, with trailing slashes
/// removed.
fn tail_without_slashes(s: &str, from: usize) -> (r: String)
    requires
        from <= s@.len(),
    ensures
        r@ == spec_trim_end_slashes(s@.skip(from as int)),
{
    let n = s.unicode_len();
    let mut end: usize = n;
    proof {
        assert(s@.subrange(from as int, n as int) =~= s@.skip(from as int));
    }
    while end > from && s.get_char(end - 1) == '/'
        invariant
            n == s@.len(),
            from <= end <= n,
            spec_trim_end_slashes(s@.skip(from as int)) == spec_trim_end_slashes(
                s@.subrange(from as int, end as int),
            ),
        decreases end,
    {
        proof {
            let cur = s@.subrange(from as int, end as int);
            assert(cur.last() == s@[end - 1]);
            assert(cur.drop_last() =~= s@.subrange(from as int, end - 1));
        }
        end = end - 1;
    }
    proof {
        let cur = s@.subrange(from as int, end as int);
        if cur.len() > 0 {
            assert(cur.last() == s@[end - 1]);
        }
        assert(spec_trim_end_slashes(cur) == cur);
    }
    let out = s.substring_char(from, end);
    out.to_owned()
}

/// `s` with the occurrences of `pat` removed, as `spec_remove_all`
/// describes.
fn remove_all(s: &str, pat: &str) -> (r: String)
    requires
        pat@.len() >= 1,
    ensures
        r@ == spec_remove_all(s@, pat@),
{
    let n = s.unicode_len();
    let m = pat.unicode_len();
    let mut out = String::new();
    let mut i: usize = 0;
    proof {
        assert(s@.skip(0) =~= s@);
    }
    while i < n
        invariant
            n == s@.len(),
            m == pat@.len(),
            1 <= m,
            0 <= i <= n,
            out@ + spec_remove_all(s@.skip(i as int), pat@) == spec_remove_all(s@, pat@),
        decreases n - i,
    {
        let ghost before = out@;
        let is_match: bool = if m <= n - i {
            occurs_at(s, pat, i)
        } else {
            false
        };
        if is_match {
            proof {
                let rest = s@.skip(i as int);
                assert(rest.take(m as int) =~= s@.subrange(i as int, i + m));
                assert(rest.take(m as int) == pat@);
                assert(rest.skip(m as int) =~= s@.skip(i + m));
                assert(spec_remove_all(rest, pat@) == spec_remove_all(s@.skip(i + m), pat@));
            }
            i = i + m;
        } else {
            let piece = s.substring_char(i, i + 1);
            out.append(piece);
            proof {
                let rest = s@.skip(i as int);
                assert(rest[0] == s@[i as int]);
                if i + m <= n {
                    assert(rest.take(m as int) =~= s@.subrange(i as int, i + m));
                    assert(rest.take(m as int) != pat@);
                } else {
                    assert(pat@.len() > rest.len());
                }
                assert(spec_remove_all(rest, pat@) == seq![rest[0]] + spec_remove_all(
                    rest.drop_first(),
                    pat@,
                ));
                assert(rest.drop_first() =~= s@.skip(i + 1));
                assert(piece@ =~= seq![s@[i as int]]);
                assert(out@ + spec_remove_all(s@.skip(i + 1), pat@) =~= before + spec_remove_all(
                    rest,
                    pat@,
                ));
            }
            i = i + 1;
        }
    }
    proof {
        assert(s@.skip(n as int) =~= Seq::<char>::empty());
        assert(out@ + spec_remove_all(Seq::<char>::empty(), pat@) =~= out@);
    }
    out
}

/// An admin's dialogue position: picking a user, or editing one.
#[derive(Debug, PartialEq)]
pub enum AdminState {
    Idle,
    EditUser(VkUser),
}

impl Clone for AdminState {
    fn clone(&self) -> (r: Self)
        ensures
            r == *self,
    {
        match self {
            AdminState::Idle => AdminState::Idle,
            AdminState::EditUser(u) => AdminState::EditUser(u.clone()),
        }
    }
}

/// What one admin message asks the caller to do.
#[derive(Debug, PartialEq)]
pub enum AdminStep {
    /// Look the named user up, then continue with `admin_lookup_done`.
    Lookup { name: String },
    /// Deliver `reply` and remember `next`; `set_stage` first stores the
    /// given 0-based stage for the given user.
    Done { reply: String, next: AdminState, set_stage: Option<(i64, u64)> },
}

/// The full editing prompt shown above a selected user.
pub open spec fn spec_usage_user(u: VkUser) -> Seq<char> {
    spec_describe(u)
        + "\nНапиши \"этап n\", чтобы перевести пользователя на другой этап (например, \"этап 2\").\nНапиши \"отмена\", чтобы выбрать другого пользователя.\n"@
}

/// The reply for a user link that resolves to nobody.
pub open spec fn spec_usage_no_user(name: Seq<char>) -> Seq<char> {
    "Пользователь "@ + name + " не найден. "@ + USAGE_START@
}

/// Builds the editing prompt above a selected user.
pub fn usage_user(user: &VkUser) -> (r: String)
    ensures
        r@ == spec_usage_user(*user),
{
    let mut s = user.describe();
    s.append(
        "\nНапиши \"этап n\", чтобы перевести пользователя на другой этап (например, \"этап 2\").\nНапиши \"отмена\", чтобы выбрать другого пользователя.\n",
    );
    proof {
        assert(s@ =~= spec_usage_user(*user));
    }
    s
}

/// Builds the reply for a user link that resolves to nobody.
pub fn usage_no_user(name: &str) -> (r: String)
    ensures
        r@ == spec_usage_no_user(name@),
{
    let mut s = String::new();
    s.append("Пользователь ");
    s.append(name);
    s.append(" не найден. ");
    s.append(USAGE_START);
    proof {
        assert(s@ =~= spec_usage_no_user(name@));
    }
    s
}

/// Runs one admin message through the dialogue machine. Idle: a `vk.com/`
/// link asks for a lookup, anything else re-prompts. Editing: the cancel
/// word drops the selection; a stage command in range stores the 0-based
/// stage and reports it; an unusable number re-prompts; anything else shows
/// the editing usage again.
pub fn admin_step(state: AdminState, text: &str, stage_count: u64) -> (r: AdminStep)
    ensures
        state == AdminState::Idle ==> ({
            if spec_occurs_at(text@, "vk.com/"@, 0) {
                r matches AdminStep::Lookup { name } && name@ == spec_trim_end_slashes(
                    text@.skip(7),
                )
            } else {
                r matches AdminStep::Done { reply, next, set_stage } && reply@ == USAGE_START@
                    && next == AdminState::Idle && set_stage is None
            }
        }),
        state matches AdminState::EditUser(user) ==> ({
            let cmd = spec_lower(spec_trim(text@));
            if cmd == "отмена"@ {
                r matches AdminStep::Done { reply, next, set_stage } && reply@ == USAGE_START@
                    && next == AdminState::Idle && set_stage is None
            } else if spec_occurs_at(cmd, "этап "@, 0) {
                match spec_parse_u64(spec_remove_all(cmd, "этап "@)) {
                    Some(st) => if 1 <= st && st <= stage_count {
                        r matches AdminStep::Done { reply, next, set_stage } && reply@
                            == spec_describe(user) + " теперь на этапе "@ + spec_u64_dec(st as int)
                            && next == AdminState::Idle && set_stage == Some(
                            (user.id, (st - 1) as u64),
                        )
                    } else {
                        r matches AdminStep::Done { reply, next, set_stage } && reply@
                            == STAGE_PROMPT@ && next == AdminState::EditUser(user) && set_stage
                            is None
                    },
                    None => r matches AdminStep::Done { reply, next, set_stage } && reply@
                        == STAGE_PROMPT@ && next == AdminState::EditUser(user) && set_stage
                        is None,
                }
            } else {
                r matches AdminStep::Done { reply, next, set_stage } && reply@ == spec_usage_user(
                    user,
                ) && next == AdminState::EditUser(user) && set_stage is None
            }
        }),
{
    match state {
        AdminState::Idle => {
            if starts_with_str(text, "vk.com/") {
                proof {
                    reveal_strlit("vk.com/");
                }
                let name = tail_without_slashes(text, 7);
                AdminStep::Lookup { name }
            } else {
                AdminStep::Done {
                    reply: USAGE_START.to_owned(),
                    next: AdminState::Idle,
                    set_stage: None,
                }
            }
        },
        AdminState::EditUser(user) => {
            let trimmed = trim(text);
            let cmd = lowercase(trimmed.as_str());
            if str_eq(cmd.as_str(), "отмена") {
                AdminStep::Done {
                    reply: USAGE_START.to_owned(),
                    next: AdminState::Idle,
                    set_stage: None,
                }
            } else if starts_with_str(cmd.as_str(), "этап ") {
                proof {
                    reveal_strlit("этап ");
                }
                let num_str = remove_all(cmd.as_str(), "этап ");
                match parse_u64(num_str.as_str()) {
                    Some(st) => {
                        if 1 <= st && st <= stage_count {
                            let mut reply = user.describe();
                            reply.append(" теперь на этапе ");
                            let st_s = u64_to_string(st);
                            reply.append(st_s.as_str());
                            proof {
                                assert(reply@ =~= spec_describe(user) + " теперь на этапе "@
                                    + spec_u64_dec(st as int));
                            }
                            let set_stage = Some((user.id, st - 1));
                            AdminStep::Done { reply, next: AdminState::Idle, set_stage }
                        } else {
                            AdminStep::Done {
                                reply: STAGE_PROMPT.to_owned(),
                                next: AdminState::EditUser(user),
                                set_stage: None,
                            }
                        }
                    },
                    None => AdminStep::Done {
                        reply: STAGE_PROMPT.to_owned(),
                        next: AdminState::EditUser(user),
                        set_stage: None,
                    },
                }
            } else {
                AdminStep::Done {
                    reply: usage_user(&user),
                    next: AdminState::EditUser(user),
                    set_stage: None,
                }
            }
        },
    }
}

/// Continues an Idle-state lookup: a found user becomes the edited one, an
/// unknown name re-prompts.
pub fn admin_lookup_done(name: &str, found: Option<VkUser>) -> (r: (String, AdminState))
    ensures
        match found {
            Some(u) => r.0@ == spec_usage_user(u) && r.1 == AdminState::EditUser(u),
            None => r.0@ == spec_usage_no_user(name@) && r.1 == AdminState::Idle,
        },
{
    match found {
        Some(u) => {
            let reply = usage_user(&u);
            (reply, AdminState::EditUser(u))
        },
        None => (usage_no_user(name), AdminState::Idle),
    }
}

/// The per-admin dialogue sessions, keyed by admin identity; an admin who
/// never wrote is Idle.
pub struct AdminSessions {
    entries: Vec<(i64, AdminState)>,
}

impl AdminSessions {
    /// Well-formed: one entry per admin.
    pub closed spec fn wf(self) -> bool {
        forall|i: int, j: int|
            #![trigger self.entries@[i], self.entries@[j]]
            0 <= i < j < self.entries@.len() ==> self.entries@[i].0 != self.entries@[j].0
    }

    pub closed spec fn has_entry(self, id: i64) -> bool {
        exists|i: int| 0 <= i < self.entries@.len() && (#[trigger] self.entries@[i]).0 == id
    }

    pub closed spec fn entry_idx(self, id: i64) -> int {
        choose|i: int| 0 <= i < self.entries@.len() && (#[trigger] self.entries@[i]).0 == id
    }

    /// The admin's current dialogue state.
    pub closed spec fn state_of(self, id: i64) -> AdminState {
        if self.has_entry(id) {
            self.entries@[self.entry_idx(id)].1
        } else {
            AdminState::Idle
        }
    }

    proof fn lemma_entry_idx_is(self, id: i64, i: int)
        requires
            self.wf(),
            0 <= i < self.entries@.len(),
            self.entries@[i].0 == id,
        ensures
            self.has_entry(id),
            self.entry_idx(id) == i,
    {
        assert(self.has_entry(id));
        let j = self.entry_idx(id);
        assert(0 <= j < self.entries@.len() && self.entries@[j].0 == id);
        if i < j {
            assert(self.entries@[i].0 != self.entries@[j].0);
        } else if j < i {
            assert(self.entries@[j].0 != self.entries@[i].0);
        }
    }

    /// No sessions yet: every admin is Idle.
    pub fn new() -> (r: Self)
        ensures
            r.wf(),
            forall|id: i64| #[trigger] r.state_of(id) == AdminState::Idle,
    {
        let r = AdminSessions { entries: Vec::new() };
        proof {
            assert(forall|id: i64| !r.has_entry(id));
        }
        r
    }

    fn find_entry(&self, id: i64) -> (r: Option<usize>)
        ensures
            match r {
                Some(i) => i < self.entries@.len() && self.entries@[i as int].0 == id,
                None => !self.has_entry(id),
            },
    {
        let n = self.entries.len();
        let mut i: usize = 0;
        while i < n
            invariant
                n == self.entries@.len(),
                0 <= i <= n,
                forall|j: int| 0 <= j < i ==> (#[trigger] self.entries@[j]).0 != id,
            decreases n - i,
        {
            if self.entries[i].0 == id {
                return Some(i);
            }
            i = i + 1;
        }
        None
    }

    /// The admin's current dialogue state, read off.
    pub fn get_state(&self, id: i64) -> (r: AdminState)
        requires
            self.wf(),
        ensures
            r == self.state_of(id),
    {
        let found = self.find_entry(id);
        match found {
            Some(i) => {
                proof {
                    self.lemma_entry_idx_is(id, i as int);
                }
                self.entries[i].1.clone()
            },
            None => AdminState::Idle,
        }
    }

    /// Remembers the admin's next dialogue state.
    pub fn set_state(&mut self, id: i64, st: AdminState)
        requires
            old(self).wf(),
        ensures
            final(self).wf(),
            final(self).state_of(id) == st,
            forall|id2: i64|
                id2 != id ==> #[trigger] final(self).state_of(id2) == old(self).state_of(id2),
    {
        let found = self.find_entry(id);
        match found {
            Some(i) => {
                proof {
                    self.lemma_entry_idx_is(id, i as int);
                }
                self.entries[i] = (id, st);
                proof {
                    let pre = *old(self);
                    let post = *self;
                    assert(post.wf());
                    post.lemma_entry_idx_is(id, i as int);
                    assert forall|id2: i64| id2 != id implies #[trigger] post.state_of(id2)
                        == pre.state_of(id2) by {
                        if pre.has_entry(id2) {
                            let j = pre.entry_idx(id2);
                            assert(pre.entries@[j].0 == id2);
                            assert(j != i);
                            post.lemma_entry_idx_is(id2, j);
                            pre.lemma_entry_idx_is(id2, j);
                        } else {
                            if post.has_entry(id2) {
                                let j = post.entry_idx(id2);
                                assert(post.entries@[j].0 == id2);
                                assert(j != i);
                                assert(pre.entries@[j].0 == id2);
                            }
                            assert(!post.has_entry(id2));
                        }
                    }
                }
            },
            None => {
                self.entries.push((id, st));
                proof {
                    let pre = *old(self);
                    let post = *self;
                    let i = pre.entries@.len() as int;
                    assert(post.entries@[i].0 == id);
                    assert(forall|j: int| 0 <= j < i ==> post.entries@[j] == pre.entries@[j]);
                    assert forall|j: int| 0 <= j < i implies (#[trigger] post.entries@[j]).0
                        != id by {
                        if post.entries@[j].0 == id {
                            assert(pre.has_entry(id));
                        }
                    }
                    assert(post.wf());
                    post.lemma_entry_idx_is(id, i);
                    assert forall|id2: i64| id2 != id implies #[trigger] post.state_of(id2)
                        == pre.state_of(id2) by {
                        if pre.has_entry(id2) {
                            let j = pre.entry_idx(id2);
                            assert(pre.entries@[j].0 == id2);
                            post.lemma_entry_idx_is(id2, j);
                            pre.lemma_entry_idx_is(id2, j);
                        } else {
                            if post.has_entry(id2) {
                                let j = post.entry_idx(id2);
                                assert(post.entries@[j].0 == id2);
                                assert(j != i);
                                assert(pre.entries@[j].0 == id2);
                            }
                            assert(!post.has_entry(id2));
                        }
                    }
                }
            },
        }
    }
}

} // verus!
