use vstd::prelude::*;

use crypto::digest::Digest;

verus! {

/// The SHA3-256 digest of the UTF-8 bytes of a text, written in lowercase hexadecimal.
pub uninterp spec fn sha3_256_hex(text: Seq<char>) -> Seq<char>;

/// A digit of lowercase hexadecimal.
pub open spec fn is_lower_hex(c: char) -> bool {
    (48 <= (c as int) <= 57) || (97 <= (c as int) <= 102)
}

/// Relies on rust-crypto's `Sha3::sha3_256`, fed by `Digest::input_str` and read by
/// `Digest::result_str`: the hexadecimal digest, which depends on the text alone. The digest
/// has 256 bits, and `result_str` writes each of its 32 bytes as two lowercase hex digits.
#[verifier::external_body]
pub fn hash(text: &str) -> (r: String)
    ensures
        r@ == sha3_256_hex(text@),
        r@.len() == 64,
        forall|i: int| 0 <= i < r@.len() ==> is_lower_hex(#[trigger] r@[i]),
{
    let mut hasher = crypto::sha3::Sha3::sha3_256();
    hasher.input_str(text);
    hasher.result_str()
}

/// The character of the decimal digit `d`.
pub open spec fn digit_char(d: nat) -> char {
    ((48 + d) as u8) as char
}

/// `n` in decimal, without leading zeros.
pub open spec fn decimal(n: nat) -> Seq<char>
    decreases n,
{
    if n < 10 {
        seq![digit_char(n)]
    } else {
        decimal(n / 10).push(digit_char(n % 10))
    }
}

fn digit_text(d: u64) -> (r: &'static str)
    requires
        d < 10,
    ensures
        r@ == seq![digit_char(d as nat)],
{
    proof {
        reveal_strlit("0");
        reveal_strlit("1");
        reveal_strlit("2");
        reveal_strlit("3");
        reveal_strlit("4");
        reveal_strlit("5");
        reveal_strlit("6");
        reveal_strlit("7");
        reveal_strlit("8");
        reveal_strlit("9");
    }
    let r = match d {
        0 => "0",
        1 => "1",
        2 => "2",
        3 => "3",
        4 => "4",
        5 => "5",
        6 => "6",
        7 => "7",
        8 => "8",
        _ => "9",
    };
    proof {
        assert(r@ =~= seq![digit_char(d as nat)]);
    }
    r
}

/// `n` written in decimal.
pub fn decimal_text(n: u64) -> (r: String)
    ensures
        r@ == decimal(n as nat),
    decreases n,
{
    if n < 10 {
        String::from_str(digit_text(n))
    } else {
        let head = decimal_text(n / 10);
        let r = head.concat(digit_text(n % 10));
        proof {
            assert(r@ =~= decimal(n as nat));
        }
        r
    }
}

/// The id of a comment posted on `scope` by `author` at the instant written `now` and
/// `now_millis` milliseconds after the epoch: the comment prefix, the milliseconds, and the
/// digest of scope, author and instant together.
pub open spec fn comment_id_text(
    scope: Seq<char>,
    author: Seq<char>,
    now: Seq<char>,
    now_millis: nat,
) -> Seq<char> {
    "COMMENT_"@ + decimal(now_millis) + sha3_256_hex(scope + author + now)
}

/// The id of a new comment; see `comment_id_text`.
pub fn comment_id(commentable_id: &String, user_id: &String, now: &str, now_millis: u64) -> (r:
    String)
    ensures
        r@ == comment_id_text(commentable_id@, user_id@, now@, now_millis as nat),
{
    let seed = commentable_id.clone().concat(user_id.as_str()).concat(now);
    let digest = hash(seed.as_str());
    let r = String::from_str("COMMENT_").concat(decimal_text(now_millis).as_str()).concat(
        digest.as_str(),
    );
    r
}

/// The id of the reaction of type `kind` by `user` on comment `comment`: the reaction prefix
/// and the digest of the three together. The same triple always yields the same id.
pub open spec fn reaction_id_text(comment: Seq<char>, user: Seq<char>, kind: Seq<char>) -> Seq<
    char,
> {
    "REACTION_"@ + sha3_256_hex(comment + user + kind)
}

/// The id of a reaction; see `reaction_id_text`.
pub fn reaction_id(comment_id: &String, user_id: &String, reaction_type: &String) -> (r: String)
    ensures
        r@ == reaction_id_text(comment_id@, user_id@, reaction_type@),
{
    let seed = comment_id.clone().concat(user_id.as_str()).concat(reaction_type.as_str());
    let digest = hash(seed.as_str());
    String::from_str("REACTION_").concat(digest.as_str())
}

/// The id of the user who signs in with `email`.
pub open spec fn user_id_text(email: Seq<char>) -> Seq<char> {
    "USER_"@ + sha3_256_hex(email)
}

/// The id of the user who signs in with `email`: derived, so that no index is needed to find
/// a user by identity.
pub fn user_id_for_email(email: &String) -> (r: String)
    ensures
        r@ == user_id_text(email@),
{
    String::from_str("USER_").concat(hash(email.as_str()).as_str())
}

/// What separates the user part of an auth token from its secret.
pub open spec fn token_delimiter() -> Seq<char> {
    "-=#=-"@
}

/// `d` occurs in `s` at position `i`.
pub open spec fn occurs_at(s: Seq<char>, d: Seq<char>, i: int) -> bool {
    0 <= i && i + d.len() <= s.len() && s.subrange(i, i + d.len()) == d
}

/// The part of an auth token before the first delimiter; the whole token where none occurs.
pub open spec fn token_owner(token: Seq<char>) -> Seq<char> {
    if exists|i: int| occurs_at(token, token_delimiter(), i) {
        let i = choose|i: int|
            occurs_at(token, token_delimiter(), i) && forall|j: int|
                0 <= j < i ==> !occurs_at(token, token_delimiter(), j);
        token.subrange(0, i)
    } else {
        token
    }
}

/// The user id that an auth token names: the user prefix and the token's part before the
/// first delimiter.
pub fn token_user_id(token: &str) -> (r: String)
    ensures
        r@ == "USER_"@ + token_owner(token@),
{
    let delimiter = String::from_str("-=#=-");
    proof {
        reveal_strlit("-=#=-");
    }
    let n = token.unicode_len();
    let d = delimiter.as_str().unicode_len();
    let mut i: usize = 0;
    let mut found: Option<usize> = None;
    while i < n && d <= n - i
        invariant_except_break
            found is None,
        invariant
            i <= n,
            n == token@.len(),
            d == token_delimiter().len(),
            d == 5,
            delimiter@ == token_delimiter(),
            forall|j: int| 0 <= j < i ==> !occurs_at(token@, token_delimiter(), j),
        ensures
            match found {
                Some(k) => occurs_at(token@, token_delimiter(), k as int) && forall|j: int|
                    0 <= j < k ==> !occurs_at(token@, token_delimiter(), j),
                None => forall|j: int| 0 <= j ==> !occurs_at(token@, token_delimiter(), j),
            },
        decreases n - i,
    {
        let part = token.substring_char(i, i + d).to_owned();
        if part == delimiter {
            found = Some(i);
            break;
        }
        i = i + 1;
    }
    let owner = match found {
        Some(k) => token.substring_char(0, k),
        None => token,
    };
    proof {
        match found {
            Some(k) => {
                let c = choose|c: int|
                    occurs_at(token@, token_delimiter(), c) && forall|j: int|
                        0 <= j < c ==> !occurs_at(token@, token_delimiter(), j);
                assert(c == k) by {
                    if c < k {
                    } else if c > k {
                    }
                }
            },
            None => {},
        }
    }
    String::from_str("USER_").concat(owner)
}

/// The auth token of a user created at the instant `now`: the digest of the email, the
/// delimiter, and the digest of the instant.
pub open spec fn auth_token_text(email: Seq<char>, now: Seq<char>) -> Seq<char> {
    sha3_256_hex(email) + token_delimiter() + sha3_256_hex(now)
}

/// The auth token given to the user who signs in with `email` at the instant `now`.
pub fn auth_token(email: &String, now: &String) -> (r: String)
    ensures
        r@ == auth_token_text(email@, now@),
        r@.subrange(0, 64) == sha3_256_hex(email@),
        forall|i: int| 0 <= i < 64 ==> is_lower_hex(#[trigger] r@[i]),
{
    let head = hash(email.as_str());
    let r = head.concat("-=#=-").concat(hash(now.as_str()).as_str());
    proof {
        assert(r@.subrange(0, 64) =~= sha3_256_hex(email@));
        assert forall|i: int| 0 <= i < 64 implies is_lower_hex(#[trigger] r@[i]) by {
            assert(r@[i] == head@[i]);
        }
    }
    r
}

/// A token whose first 64 characters are hex digits and which continues with the delimiter
/// names the user of those 64 characters.
pub proof fn lemma_token_owner_of_digest(token: Seq<char>)
    requires
        token.len() >= 69,
        forall|i: int| 0 <= i < 64 ==> is_lower_hex(#[trigger] token[i]),
        token.subrange(64, 69) == token_delimiter(),
    ensures
        token_owner(token) == token.subrange(0, 64),
{
    reveal_strlit("-=#=-");
    let d = token_delimiter();
    assert(d.len() == 5 && d[0] == '-');
    assert(occurs_at(token, d, 64));
    assert forall|j: int| 0 <= j < 64 implies !occurs_at(token, d, j) by {
        if occurs_at(token, d, j) {
            assert(token.subrange(j, j + 5)[0] == token[j]);
            assert(is_lower_hex(token[j]));
        }
    }
    let c = choose|c: int|
        occurs_at(token, d, c) && forall|j: int| 0 <= j < c ==> !occurs_at(token, d, j);
    assert(c == 64) by {
        if c < 64 {
        } else if c > 64 {
        }
    }
}

/// A user's fresh auth token names that user: the id that the token's first part gives is the
/// id derived from the email, so the token signs that user in.
pub proof fn lemma_fresh_token_names_user(email: Seq<char>, now: Seq<char>, token: Seq<char>)
    requires
        token == auth_token_text(email, now),
        sha3_256_hex(email).len() == 64,
        forall|i: int| 0 <= i < 64 ==> is_lower_hex(#[trigger] sha3_256_hex(email)[i]),
    ensures
        "USER_"@ + token_owner(token) == user_id_text(email),
{
    reveal_strlit("-=#=-");
    let h = sha3_256_hex(email);
    assert(token.subrange(64, 69) =~= token_delimiter());
    assert(token.subrange(0, 64) =~= h);
    assert forall|i: int| 0 <= i < 64 implies is_lower_hex(#[trigger] token[i]) by {
        assert(token[i] == h[i]);
    }
    lemma_token_owner_of_digest(token);
}

} // verus!
