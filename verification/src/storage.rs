//! The text in which sessions are kept between two runs.
//!
//! Each session takes two lines. The first holds three numbers with a
//! blank between them: the time at which the session was stored, the
//! length of the server's URL and the length of the token, both in
//! characters. The second holds the URL and the token, one right after the
//! other. The lengths say where each ends, so both may hold any character.

use crate::session::{as_map, views, Session, SessionStore, SessionView, Stored};
use vstd::prelude::*;
use vstd::string::*;

verus! {

/// Whether `c` is a decimal digit.
pub open spec fn is_digit(c: char) -> bool {
    '0' <= c <= '9'
}

/// The digit for a number below ten.
pub open spec fn digit(n: nat) -> char {
    if n == 0 {
        '0'
    } else if n == 1 {
        '1'
    } else if n == 2 {
        '2'
    } else if n == 3 {
        '3'
    } else if n == 4 {
        '4'
    } else if n == 5 {
        '5'
    } else if n == 6 {
        '6'
    } else if n == 7 {
        '7'
    } else if n == 8 {
        '8'
    } else {
        '9'
    }
}

/// The number that a digit stands for.
pub open spec fn digit_value(c: char) -> nat {
    (c as nat - '0' as nat) as nat
}

/// The decimal digits of `n`, without leading zeros.
pub open spec fn digits(n: nat) -> Seq<char>
    decreases n,
{
    if n < 10 {
        seq![digit(n)]
    } else {
        digits(n / 10).push(digit(n % 10))
    }
}

/// The number that decimal digits stand for.
pub open spec fn number(text: Seq<char>) -> nat
    decreases text.len(),
{
    if text.len() == 0 {
        0
    } else {
        number(text.drop_last()) * 10 + digit_value(text.last())
    }
}

/// Whether the lengths of the session's parts are numbers that can be
/// written down and read again.
pub open spec fn fits(session: SessionView) -> bool {
    session.server_url.len() <= u64::MAX && session.token.len() <= u64::MAX
}

/// The text of one session.
#[verifier::opaque]
pub open spec fn encoded_session(session: SessionView) -> Seq<char> {
    digits(session.created_at as nat) + seq![' '] + digits(session.server_url.len()) + seq![' ']
        + digits(session.token.len()) + seq!['\n'] + session.server_url + session.token
        + seq!['\n']
}

/// The text of some sessions: that of each, in their order.
pub open spec fn encoded(sessions: Seq<SessionView>) -> Seq<char>
    decreases sessions.len(),
{
    if sessions.len() == 0 {
        Seq::empty()
    } else {
        encoded_session(sessions.first()) + encoded(sessions.drop_first())
    }
}

fn digit_text(n: u64) -> (text: &'static str)
    requires
        n < 10,
    ensures
        text@ == seq![digit(n as nat)],
{
    proof {
        reveal_strlit("0");
        reveal_strlit("1");
        reveal_strlit("2");
        reveal_strlit("3");
        reveal_strlit("4");
        reveal_strlit("5");
        reveal_strlit("6");
        reveal_strlit("7");
        reveal_strlit("8");
        reveal_strlit("9");
    }
    let text = if n == 0 {
        "0"
    } else if n == 1 {
        "1"
    } else if n == 2 {
        "2"
    } else if n == 3 {
        "3"
    } else if n == 4 {
        "4"
    } else if n == 5 {
        "5"
    } else if n == 6 {
        "6"
    } else if n == 7 {
        "7"
    } else if n == 8 {
        "8"
    } else {
        "9"
    };
    assert(text@ =~= seq![digit(n as nat)]);
    text
}

fn append_number(text: String, n: u64) -> (r: String)
    ensures
        r@ == text@ + digits(n as nat),
    decreases n,
{
    if n < 10 {
        let r = text.concat(digit_text(n));
        r
    } else {
        let r = append_number(text, n / 10).concat(digit_text(n % 10));
        assert(r@ =~= text@ + digits(n as nat));
        r
    }
}

fn append_session(text: String, session: &Session) -> (r: String)
    ensures
        r@ == text@ + encoded_session(session@),
        fits(session@),
{
    proof {
        reveal(encoded_session);
        reveal_strlit(" ");
        reveal_strlit("\n");
    }
    let url_len = session.server_url.as_str().unicode_len();
    let token_len = session.token.as_str().unicode_len();
    let r = append_number(text, session.created_at);
    let r = r.concat(" ");
    let r = append_number(r, url_len as u64);
    let r = r.concat(" ");
    let r = append_number(r, token_len as u64);
    let r = r.concat("\n");
    let r = r.concat(session.server_url.as_str());
    let r = r.concat(session.token.as_str());
    let r = r.concat("\n");
    assert(" "@ =~= seq![' ']);
    assert("\n"@ =~= seq!['\n']);
    assert(r@ =~= text@ + encoded_session(session@));
    r
}

/// The text of some sessions with one more is their text with that of the
/// last one after it.
pub proof fn lemma_encoded_push(sessions: Seq<SessionView>, session: SessionView)
    ensures
        encoded(sessions.push(session)) == encoded(sessions) + encoded_session(session),
    decreases sessions.len(),
{
    let longer = sessions.push(session);
    if sessions.len() == 0 {
        assert(longer.drop_first() =~= Seq::<SessionView>::empty());
        assert(encoded(longer) =~= encoded_session(session) + encoded(longer.drop_first()));
        assert(encoded(longer) =~= encoded(sessions) + encoded_session(session));
    } else {
        assert(longer.drop_first() =~= sessions.drop_first().push(session));
        lemma_encoded_push(sessions.drop_first(), session);
        assert(encoded(longer) =~= encoded(sessions) + encoded_session(session));
    }
}

/// Writes `sessions` as text. Their parts have lengths that can be written
/// down.
pub fn encode(sessions: &Vec<Session>) -> (text: String)
    ensures
        text@ == encoded(views(sessions@)),
        forall|i: int| 0 <= i < sessions@.len() ==> fits(#[trigger] views(sessions@)[i]),
{
    let mut text = String::new();
    let mut i: usize = 0;
    assert(views(sessions@).take(0) =~= Seq::<SessionView>::empty());
    while i < sessions.len()
        invariant
            i <= sessions@.len(),
            text@ == encoded(views(sessions@).take(i as int)),
            forall|j: int| 0 <= j < i ==> fits(#[trigger] views(sessions@)[j]),
        decreases sessions@.len() - i,
    {
        proof {
            let shorter = views(sessions@).take(i as int);
            assert(views(sessions@).take(i + 1) =~= shorter.push(sessions@[i as int]@));
            lemma_encoded_push(shorter, sessions@[i as int]@);
        }
        text = append_session(text, &sessions[i]);
        i = i + 1;
    }
    assert(views(sessions@).take(i as int) =~= views(sessions@));
    text
}

/// Where the digits that begin at `from` end.
pub open spec fn digits_end(text: Seq<char>, from: int) -> int
    decreases text.len() - from,
{
    if 0 <= from < text.len() && is_digit(text[from]) {
        digits_end(text, from + 1)
    } else {
        from
    }
}

/// The number that begins at `from`, and where it ends. There is none
/// where no digit stands at `from`, or where the number is beyond what a
/// time or a length can be.
pub open spec fn read_number(text: Seq<char>, from: int) -> Option<(u64, int)> {
    let end = digits_end(text, from);
    let value = number(text.subrange(from, end));
    if from < end && value <= u64::MAX {
        Some((value as u64, end))
    } else {
        None
    }
}

/// Whether the character `c` stands at `at`.
pub open spec fn stands_at(text: Seq<char>, at: int, c: char) -> bool {
    0 <= at < text.len() && text[at] == c
}

/// The session that begins at `from`, and where the next one begins.
/// There is none where the text does not go on as the text of a session
/// does.
pub open spec fn read_session(text: Seq<char>, from: int) -> Option<(SessionView, int)> {
    match read_number(text, from) {
        Some((created_at, a)) if stands_at(text, a, ' ') => match read_number(text, a + 1) {
            Some((url_len, b)) if stands_at(text, b, ' ') => match read_number(text, b + 1) {
                Some((token_len, c)) if stands_at(text, c, '\n') => {
                    let url_end = c + 1 + url_len;
                    let token_end = url_end + token_len;
                    if stands_at(text, token_end, '\n') {
                        Some(
                            (
                                SessionView {
                                    server_url: text.subrange(c + 1, url_end),
                                    token: text.subrange(url_end, token_end),
                                    created_at,
                                },
                                token_end + 1,
                            ),
                        )
                    } else {
                        None
                    }
                },
                _ => None,
            },
            _ => None,
        },
        _ => None,
    }
}

/// The sessions that the text from `from` on holds. There are none where
/// some part of it is not the text of a session.
pub open spec fn decoded_from(text: Seq<char>, from: int) -> Option<Seq<SessionView>>
    decreases text.len() - from,
{
    if from >= text.len() {
        Some(Seq::empty())
    } else {
        match read_session(text, from) {
            Some((session, next)) if from < next => match decoded_from(text, next) {
                Some(rest) => Some(seq![session] + rest),
                None => None,
            },
            _ => None,
        }
    }
}

/// The sessions that `text` holds.
pub open spec fn decoded(text: Seq<char>) -> Option<Seq<SessionView>> {
    decoded_from(text, 0)
}

fn chars_of(text: &str) -> (chars: Vec<char>)
    ensures
        chars@ == text@,
{
    let mut chars: Vec<char> = Vec::new();
    for c in it: text.chars()
        invariant
            it.seq() == text@,
            chars@ == text@.take(it.index() as int),
    {
        chars.push(c);
        assert(chars@ =~= text@.take(it.index() + 1));
    }
    assert(chars@ =~= text@);
    chars
}

/// The digits of a number end where they end, wherever among them one
/// begins to look.
proof fn lemma_digits_end(text: Seq<char>, from: int, at: int)
    requires
        0 <= from <= at <= text.len(),
        forall|j: int| from <= j < at ==> is_digit(text[j]),
    ensures
        digits_end(text, from) == digits_end(text, at),
        at <= digits_end(text, at) <= text.len(),
    decreases text.len() - from,
{
    if from < at {
        lemma_digits_end(text, from + 1, at);
    } else {
        lemma_digits_end_bound(text, at);
    }
}

proof fn lemma_digits_end_bound(text: Seq<char>, from: int)
    requires
        0 <= from <= text.len(),
    ensures
        from <= digits_end(text, from) <= text.len(),
        forall|j: int| from <= j < digits_end(text, from) ==> is_digit(text[j]),
        digits_end(text, from) < text.len() ==> !is_digit(text[digits_end(text, from)]),
    decreases text.len() - from,
{
    if from < text.len() && is_digit(text[from]) {
        lemma_digits_end_bound(text, from + 1);
    }
}

fn parse_number(chars: &Vec<char>, from: usize) -> (r: Option<(u64, usize)>)
    requires
        from <= chars@.len(),
    ensures
        match r {
            Some((value, end)) => read_number(chars@, from as int) == Some((value, end as int))
                && from < end <= chars@.len(),
            None => read_number(chars@, from as int) is None,
        },
{
    let mut i: usize = from;
    let mut value: u64 = 0;
    let mut fits = true;
    assert(chars@.subrange(from as int, from as int) =~= Seq::<char>::empty());
    while i < chars.len() && chars[i] >= '0' && chars[i] <= '9'
        invariant
            from <= i <= chars@.len(),
            forall|j: int| from <= j < i ==> is_digit(chars@[j]),
            fits ==> value == number(chars@.subrange(from as int, i as int)),
            !fits ==> number(chars@.subrange(from as int, i as int)) > u64::MAX,
        decreases chars@.len() - i,
    {
        let d = (chars[i] as u32 - '0' as u32) as u64;
        proof {
            let longer = chars@.subrange(from as int, i + 1);
            assert(longer.drop_last() =~= chars@.subrange(from as int, i as int));
            assert(longer.last() == chars@[i as int]);
            assert(d == digit_value(chars@[i as int]));
        }
        if fits {
            match value.checked_mul(10) {
                Some(tens) => match tens.checked_add(d) {
                    Some(sum) => {
                        value = sum;
                    },
                    None => {
                        fits = false;
                    },
                },
                None => {
                    fits = false;
                },
            }
        }
        i = i + 1;
    }
    proof {
        lemma_digits_end(chars@, from as int, i as int);
        assert(digits_end(chars@, i as int) == i);
    }
    if from < i && fits {
        Some((value, i))
    } else {
        None
    }
}

fn parse_session(text: &str, chars: &Vec<char>, from: usize) -> (r: Option<(Session, usize)>)
    requires
        chars@ == text@,
        from <= chars@.len(),
    ensures
        match r {
            Some((session, next)) => read_session(chars@, from as int) == Some(
                (session@, next as int),
            ) && from < next <= chars@.len(),
            None => read_session(chars@, from as int) is None,
        },
{
    let len = chars.len();
    let (created_at, a) = match parse_number(chars, from) {
        Some(number) => number,
        None => {
            return None;
        },
    };
    if a >= len || chars[a] != ' ' {
        return None;
    }
    let (url_len, b) = match parse_number(chars, a + 1) {
        Some(number) => number,
        None => {
            return None;
        },
    };
    if b >= len || chars[b] != ' ' {
        return None;
    }
    let (token_len, c) = match parse_number(chars, b + 1) {
        Some(number) => number,
        None => {
            return None;
        },
    };
    if c >= len || chars[c] != '\n' {
        return None;
    }
    let url_start = c + 1;
    if url_len > (len - url_start) as u64 {
        return None;
    }
    let url_end = url_start + url_len as usize;
    if token_len > (len - url_end) as u64 {
        return None;
    }
    let token_end = url_end + token_len as usize;
    if token_end >= len || chars[token_end] != '\n' {
        return None;
    }
    let session = Session {
        server_url: text.substring_char(url_start, url_end).to_owned(),
        token: text.substring_char(url_end, token_end).to_owned(),
        created_at,
    };
    Some((session, token_end + 1))
}

/// Reads sessions from `text`. There are none where some part of the text
/// is not the text of a session.
pub fn decode(text: &str) -> (sessions: Option<Vec<Session>>)
    ensures
        match sessions {
            Some(sessions) => decoded(text@) == Some(views(sessions@)),
            None => decoded(text@) is None,
        },
{
    let chars = chars_of(text);
    let mut sessions: Vec<Session> = Vec::new();
    let mut from: usize = 0;
    while from < chars.len()
        invariant
            chars@ == text@,
            from <= chars@.len(),
            decoded(text@) == match decoded_from(text@, from as int) {
                Some(rest) => Some(views(sessions@) + rest),
                None => None,
            },
        decreases chars@.len() - from,
    {
        match parse_session(text, &chars, from) {
            Some((session, next)) => {
                proof {
                    let rest = decoded_from(text@, next as int);
                    if rest is Some {
                        assert(views(sessions@.push(session)) + rest->0 =~= views(sessions@) + (
                        seq![session@] + rest->0));
                    }
                }
                sessions.push(session);
                from = next;
            },
            None => {
                return None;
            },
        }
    }
    assert(views(sessions@) + Seq::<SessionView>::empty() =~= views(sessions@));
    Some(sessions)
}

/// What is stored in `text`: what storing the sessions that it holds, in
/// turn, gives. Nothing is stored in a text that is not the text of
/// sessions.
pub open spec fn stored_in(text: Seq<char>) -> Map<Seq<char>, Stored> {
    match decoded(text) {
        Some(sessions) => as_map(sessions),
        None => Map::empty(),
    }
}

/// Makes a store at the time `now` of what was written before. A text that
/// cannot be read counts as no session at all: the user logs in again.
pub fn from_text(text: &str, now: u64) -> (store: SessionStore)
    ensures
        store@ == stored_in(text@),
        store.now() == now,
{
    match decode(text) {
        Some(sessions) => SessionStore::restore(sessions, now),
        None => SessionStore::new(now),
    }
}

/// Writes the sessions of `store` as text. Reading the text gives what the
/// store holds.
pub fn to_text(store: &SessionStore) -> (text: String)
    ensures
        stored_in(text@) == store@,
{
    let sessions = store.sessions();
    let text = encode(&sessions);
    proof {
        lemma_decoded_encoded(views(sessions@));
    }
    text
}

/// The digits of a number are digits, there is at least one of them, and
/// they stand for the number.
pub proof fn lemma_digits(n: nat)
    ensures
        digits(n).len() >= 1,
        forall|j: int| 0 <= j < digits(n).len() ==> is_digit(#[trigger] digits(n)[j]),
        number(digits(n)) == n,
    decreases n,
{
    if n < 10 {
        assert(digits(n).drop_last() =~= Seq::<char>::empty());
        assert(number(digits(n).drop_last()) == 0);
    } else {
        lemma_digits(n / 10);
        assert(digits(n).drop_last() =~= digits(n / 10));
        assert(digits(n).last() == digit(n % 10));
    }
}

/// Where the digits of a number stand and something else follows, the
/// number is read, up to where its digits end.
proof fn lemma_read_number(text: Seq<char>, from: int, n: nat)
    requires
        n <= u64::MAX,
        0 <= from,
        from + digits(n).len() < text.len(),
        text.subrange(from, from + digits(n).len()) == digits(n),
        !is_digit(text[from + digits(n).len()]),
    ensures
        read_number(text, from) == Some((n as u64, from + digits(n).len())),
{
    lemma_digits(n);
    let end = from + digits(n).len();
    assert forall|j: int| from <= j < end implies is_digit(text[j]) by {
        assert(text[j] == text.subrange(from, end)[j - from]);
    }
    lemma_digits_end(text, from, end);
}

/// Where the text of a session stands, the session is read.
proof fn lemma_read_session(text: Seq<char>, from: int, session: SessionView)
    requires
        fits(session),
        0 <= from,
        from + encoded_session(session).len() <= text.len(),
        text.subrange(from, from + encoded_session(session).len()) == encoded_session(session),
    ensures
        read_session(text, from) == Some((session, from + encoded_session(session).len())),
{
    reveal(encoded_session);
    let line = encoded_session(session);
    let created = digits(session.created_at as nat);
    let url_len = digits(session.server_url.len());
    let token_len = digits(session.token.len());
    lemma_digits(session.created_at as nat);
    lemma_digits(session.server_url.len());
    lemma_digits(session.token.len());
    let a = from + created.len();
    let b = a + 1 + url_len.len();
    let c = b + 1 + token_len.len();
    let url_end = c + 1 + session.server_url.len();
    let token_end = url_end + session.token.len();
    assert(line.len() == token_end + 1 - from);
    assert forall|j: int| 0 <= j < line.len() implies text[from + j] == line[j] by {
        assert(text.subrange(from, from + line.len())[j] == text[from + j]);
    }
    assert(text[a] == ' ') by {
        assert(line[a - from] == ' ');
    }
    assert(text[b] == ' ') by {
        assert(line[b - from] == ' ');
    }
    assert(text[c] == '\n') by {
        assert(line[c - from] == '\n');
    }
    assert(text[token_end] == '\n') by {
        assert(line[token_end - from] == '\n');
    }
    assert(text.subrange(from, a) =~= created) by {
        assert forall|j: int| 0 <= j < created.len() implies text[from + j] == created[j] by {
            assert(line[j] == created[j]);
        }
    }
    assert(text.subrange(a + 1, b) =~= url_len) by {
        assert forall|j: int| 0 <= j < url_len.len() implies text[a + 1 + j] == url_len[j] by {
            assert(line[a + 1 + j - from] == url_len[j]);
        }
    }
    assert(text.subrange(b + 1, c) =~= token_len) by {
        assert forall|j: int| 0 <= j < token_len.len() implies text[b + 1 + j] == token_len[j] by {
            assert(line[b + 1 + j - from] == token_len[j]);
        }
    }
    assert(text.subrange(c + 1, url_end) =~= session.server_url) by {
        assert forall|j: int| 0 <= j < session.server_url.len() implies text[c + 1 + j]
            == session.server_url[j] by {
            assert(line[c + 1 + j - from] == session.server_url[j]);
        }
    }
    assert(text.subrange(url_end, token_end) =~= session.token) by {
        assert forall|j: int| 0 <= j < session.token.len() implies text[url_end + j]
            == session.token[j] by {
            assert(line[url_end + j - from] == session.token[j]);
        }
    }
    lemma_read_number(text, from, session.created_at as nat);
    lemma_read_number(text, a + 1, session.server_url.len());
    lemma_read_number(text, b + 1, session.token.len());
}

/// After any text, the text of sessions is read as these sessions.
proof fn lemma_decoded_after(before: Seq<char>, sessions: Seq<SessionView>)
    requires
        forall|i: int| 0 <= i < sessions.len() ==> fits(#[trigger] sessions[i]),
    ensures
        decoded_from(before + encoded(sessions), before.len() as int) == Some(sessions),
    decreases sessions.len(),
{
    let text = before + encoded(sessions);
    if sessions.len() == 0 {
        assert(text =~= before);
    } else {
        let first = sessions.first();
        let rest = sessions.drop_first();
        let line = encoded_session(first);
        let from = before.len() as int;
        let next = from + line.len();
        assert(line.len() > 0) by {
            reveal(encoded_session);
        }
        assert(text =~= (before + line) + encoded(rest));
        assert(text.subrange(from, next) =~= line);
        assert(fits(sessions[0]));
        lemma_read_session(text, from, first);
        assert forall|i: int| 0 <= i < rest.len() implies fits(#[trigger] rest[i]) by {
            assert(rest[i] == sessions[i + 1]);
        }
        lemma_decoded_after(before + line, rest);
        assert(decoded_from(text, next) == Some(rest));
        assert(seq![first] + rest =~= sessions);
    }
}

/// Sessions that are written as text are read from it as they were.
pub proof fn lemma_decoded_encoded(sessions: Seq<SessionView>)
    requires
        forall|i: int| 0 <= i < sessions.len() ==> fits(#[trigger] sessions[i]),
    ensures
        decoded(encoded(sessions)) == Some(sessions),
{
    lemma_decoded_after(Seq::empty(), sessions);
    assert(Seq::<char>::empty() + encoded(sessions) =~= encoded(sessions));
}

} // verus!
