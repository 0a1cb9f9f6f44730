//! The canonical on-disk snapshot format: a pretty-printed JSON object
//! whose keys are the decimal task ids and whose values are the task
//! records. `spec_serialize` pins the encoding down to the exact character
//! sequence; the serializer is proved to produce it, and the reader
//! accepts a string only if re-encoding its result reproduces the input,
//! so whatever it accepts is exactly the snapshot of the store it returns.

use crate::task_manager::{task_content_eq, Task, TaskPriority, TaskStatus};
use vstd::prelude::*;

verus! {

/// The lower-case hexadecimal digit for `d` (meaningful for `0 <= d < 16`).
pub open spec fn hex_digit(d: int) -> char {
    if d == 0 {
        '0'
    } else if d == 1 {
        '1'
    } else if d == 2 {
        '2'
    } else if d == 3 {
        '3'
    } else if d == 4 {
        '4'
    } else if d == 5 {
        '5'
    } else if d == 6 {
        '6'
    } else if d == 7 {
        '7'
    } else if d == 8 {
        '8'
    } else if d == 9 {
        '9'
    } else if d == 10 {
        'a'
    } else if d == 11 {
        'b'
    } else if d == 12 {
        'c'
    } else if d == 13 {
        'd'
    } else if d == 14 {
        'e'
    } else {
        'f'
    }
}

/// How one character appears inside a JSON string literal: quotes,
/// backslashes and control characters are escaped, everything else stands
/// for itself.
pub open spec fn esc_char(c: char) -> Seq<char> {
    if c == '"' {
        "\\\""@
    } else if c == '\\' {
        "\\\\"@
    } else if c == '\u{8}' {
        "\\b"@
    } else if c == '\t' {
        "\\t"@
    } else if c == '\n' {
        "\\n"@
    } else if c == '\u{c}' {
        "\\f"@
    } else if c == '\r' {
        "\\r"@
    } else if (c as u32) < 0x20 {
        "\\u00"@ + seq![hex_digit((c as u32) as int / 16), hex_digit((c as u32) as int % 16)]
    } else {
        seq![c]
    }
}

/// The body of a JSON string literal: each character escaped, in order.
pub open spec fn enc_body(s: Seq<char>) -> Seq<char>
    decreases s.len(),
{
    if s.len() == 0 {
        Seq::<char>::empty()
    } else {
        enc_body(s.drop_last()) + esc_char(s.last())
    }
}

/// A complete JSON string literal.
pub open spec fn enc_string(s: Seq<char>) -> Seq<char> {
    seq!['"'] + enc_body(s) + seq!['"']
}

/// The decimal digit for `d` (meaningful for `0 <= d < 10`).
pub open spec fn dec_digit(d: int) -> char {
    hex_digit(if 0 <= d < 10 {
        d
    } else {
        0
    })
}

/// The decimal rendering of `n`, most significant digit first, without
/// leading zeros.
pub open spec fn dec_rep(n: nat) -> Seq<char>
    decreases n,
{
    if n < 10 {
        seq![dec_digit(n as int)]
    } else {
        dec_rep(n / 10) + seq![dec_digit((n % 10) as int)]
    }
}

/// The JSON rendering of a status.
pub open spec fn status_lit(s: TaskStatus) -> Seq<char> {
    match s {
        TaskStatus::Todo => "\"Todo\""@,
        TaskStatus::InProgress => "\"InProgress\""@,
        TaskStatus::Done => "\"Done\""@,
    }
}

/// The JSON rendering of a priority.
pub open spec fn priority_lit(p: TaskPriority) -> Seq<char> {
    match p {
        TaskPriority::Low => "\"Low\""@,
        TaskPriority::Medium => "\"Medium\""@,
        TaskPriority::High => "\"High\""@,
    }
}

/// One task record as a pretty-printed JSON object, indented for its place
/// inside the top-level map.
pub open spec fn enc_task(t: Task) -> Seq<char> {
    "{\n    \"id\": "@ + dec_rep(t.id as nat) + ",\n    \"title\": "@ + enc_string(t.title@)
        + ",\n    \"description\": "@ + enc_string(t.description@) + ",\n    \"status\": "@
        + status_lit(t.status) + ",\n    \"created_at\": "@ + enc_string(t.created_at@)
        + ",\n    \"priority\": "@ + priority_lit(t.priority) + "\n  }"@
}

/// One map entry: the task's id as a quoted decimal key, then its record.
pub open spec fn enc_entry(t: Task) -> Seq<char> {
    "  \""@ + dec_rep(t.id as nat) + "\": "@ + enc_task(t)
}

/// All entries, in order, separated by `,\n`.
pub open spec fn enc_entries(ts: Seq<Task>) -> Seq<char>
    decreases ts.len(),
{
    if ts.len() == 0 {
        Seq::<char>::empty()
    } else if ts.len() == 1 {
        enc_entry(ts[0])
    } else {
        enc_entries(ts.drop_last()) + ",\n"@ + enc_entry(ts.last())
    }
}

/// The canonical snapshot of a task sequence: `{}` when empty, otherwise
/// the entries wrapped in a pretty-printed object.
pub open spec fn spec_serialize(ts: Seq<Task>) -> Seq<char> {
    if ts.len() == 0 {
        "{}"@
    } else {
        "{\n"@ + enc_entries(ts) + "\n}"@
    }
}

/// Appending the same front to two sequences keeps them apart: strip it.
proof fn lemma_prepend_cancel(a: Seq<char>, x: Seq<char>, y: Seq<char>)
    requires
        a + x == a + y,
    ensures
        x == y,
{
    assert((a + x).len() == a.len() + x.len());
    assert((a + y).len() == a.len() + y.len());
    assert(x.len() == y.len());
    assert forall|i: int| 0 <= i < x.len() implies x[i] == y[i] by {
        assert((a + x)[a.len() + i] == x[i]);
        assert((a + y)[a.len() + i] == y[i]);
    }
    assert(x =~= y);
}

/// An escape never opens with the quote that ends a string literal, and is
/// never empty.
proof fn lemma_esc_shape(c: char)
    ensures
        esc_char(c).len() >= 1,
        esc_char(c)[0] != '"',
{
    reveal_strlit("\\\"");
    reveal_strlit("\\\\");
    reveal_strlit("\\b");
    reveal_strlit("\\t");
    reveal_strlit("\\n");
    reveal_strlit("\\f");
    reveal_strlit("\\r");
    reveal_strlit("\\u00");
}

/// Escapes are uniquely decodable: when two escaped characters open the
/// same text, they are the same character and the text past them agrees.
proof fn lemma_esc_prefix(c1: char, c2: char, x: Seq<char>, y: Seq<char>)
    requires
        esc_char(c1) + x == esc_char(c2) + y,
    ensures
        c1 == c2,
        x == y,
{
    reveal_strlit("\\\"");
    reveal_strlit("\\\\");
    reveal_strlit("\\b");
    reveal_strlit("\\t");
    reveal_strlit("\\n");
    reveal_strlit("\\f");
    reveal_strlit("\\r");
    reveal_strlit("\\u00");
    let s = esc_char(c1) + x;
    let e1 = esc_char(c1);
    let e2 = esc_char(c2);
    assert(s[0] == e1[0] && s[0] == e2[0]);
    if e1.len() >= 2 && e2.len() >= 2 {
        assert(s[1] == e1[1] && s[1] == e2[1]);
    }
    if e1.len() >= 2 && e2.len() >= 2 && e1[1] == 'u' && e2[1] == 'u' {
        // both are `\u00xy` escapes: equal hex digits give equal code points
        let u1 = c1 as u32;
        let u2 = c2 as u32;
        assert(s[4] == hex_digit(u1 as int / 16) && s[4] == hex_digit(u2 as int / 16));
        assert(s[5] == hex_digit(u1 as int % 16) && s[5] == hex_digit(u2 as int % 16));
        assert(u1 as int / 16 == u2 as int / 16 && u1 as int % 16 == u2 as int % 16);
        assert(u1 == u2);
        assert(c1 == c2);
    }
    assert(c1 == c2);
    lemma_prepend_cancel(esc_char(c1), x, y);
}

/// Peeling one character off the front of an escaped string body.
proof fn lemma_enc_body_first(v: Seq<char>)
    requires
        v.len() > 0,
    ensures
        enc_body(v) == esc_char(v[0]) + enc_body(v.drop_first()),
    decreases v.len(),
{
    if v.len() == 1 {
        assert(v.drop_last() =~= Seq::<char>::empty());
        assert(v.drop_first() =~= Seq::<char>::empty());
        assert(enc_body(v) =~= esc_char(v[0]) + enc_body(v.drop_first()));
    } else {
        let d = v.drop_last();
        lemma_enc_body_first(d);
        assert(d[0] == v[0]);
        assert(d.drop_first() =~= v.drop_first().drop_last());
        assert(v.drop_first().last() == v.last());
        assert(enc_body(v.drop_first()) == enc_body(v.drop_first().drop_last()) + esc_char(
            v.drop_first().last(),
        ));
        assert(enc_body(v) == enc_body(d) + esc_char(v.last()));
        assert(enc_body(v) =~= esc_char(v[0]) + enc_body(v.drop_first()));
    }
}

/// String literals are uniquely decodable: when two of them open the same
/// text, their contents agree and the text past them agrees.
proof fn lemma_enc_string_prefix(v1: Seq<char>, v2: Seq<char>, x: Seq<char>, y: Seq<char>)
    requires
        enc_string(v1) + x == enc_string(v2) + y,
    ensures
        v1 == v2,
        x == y,
    decreases v1.len(),
{
    let b1 = enc_body(v1) + seq!['"'] + x;
    let b2 = enc_body(v2) + seq!['"'] + y;
    assert(enc_string(v1) + x =~= seq!['"'] + b1);
    assert(enc_string(v2) + y =~= seq!['"'] + b2);
    lemma_prepend_cancel(seq!['"'], b1, b2);
    if v1.len() == 0 && v2.len() == 0 {
        lemma_prepend_cancel(seq!['"'], x, y);
    } else if v1.len() == 0 {
        lemma_enc_body_first(v2);
        lemma_esc_shape(v2[0]);
        assert(b2[0] == esc_char(v2[0])[0]);
        assert(b1[0] == '"');
        assert(false);
    } else if v2.len() == 0 {
        lemma_enc_body_first(v1);
        lemma_esc_shape(v1[0]);
        assert(b1[0] == esc_char(v1[0])[0]);
        assert(b2[0] == '"');
        assert(false);
    } else {
        lemma_enc_body_first(v1);
        lemma_enc_body_first(v2);
        let t1 = v1.drop_first();
        let t2 = v2.drop_first();
        assert(esc_char(v1[0]) + (enc_body(t1) + seq!['"'] + x) =~= b1);
        assert(esc_char(v2[0]) + (enc_body(t2) + seq!['"'] + y) =~= b2);
        lemma_esc_prefix(v1[0], v2[0], enc_body(t1) + seq!['"'] + x, enc_body(t2) + seq!['"'] + y);
        assert(enc_string(t1) + x =~= seq!['"'] + (enc_body(t1) + seq!['"'] + x));
        assert(enc_string(t2) + y =~= seq!['"'] + (enc_body(t2) + seq!['"'] + y));
        lemma_enc_string_prefix(t1, t2, x, y);
        assert(v1.len() == v2.len());
        assert forall|i: int| 0 <= i < v1.len() implies v1[i] == v2[i] by {
            if i > 0 {
                assert(v1[i] == t1[i - 1] && v2[i] == t2[i - 1]);
            }
        }
        assert(v1 =~= v2);
    }
}

/// One of the ten decimal digit characters.
spec fn is_digit_char(c: char) -> bool {
    c == '0' || c == '1' || c == '2' || c == '3' || c == '4' || c == '5' || c == '6' || c == '7'
        || c == '8' || c == '9'
}

/// Decimal renderings are non-empty and all digits.
proof fn lemma_dec_rep_digits(n: nat)
    ensures
        dec_rep(n).len() >= 1,
        forall|i: int| 0 <= i < dec_rep(n).len() ==> is_digit_char(#[trigger] dec_rep(n)[i]),
    decreases n,
{
    if n < 10 {
        assert(is_digit_char(dec_digit(n as int)));
    } else {
        lemma_dec_rep_digits(n / 10);
        assert(is_digit_char(dec_digit((n % 10) as int)));
        assert forall|i: int| 0 <= i < dec_rep(n).len() implies is_digit_char(
            #[trigger] dec_rep(n)[i],
        ) by {
            if i < dec_rep(n / 10).len() {
                assert(dec_rep(n)[i] == dec_rep(n / 10)[i]);
            }
        }
    }
}

/// Equal decimal renderings come from equal numbers.
proof fn lemma_dec_rep_inj(n1: nat, n2: nat)
    requires
        dec_rep(n1) == dec_rep(n2),
    ensures
        n1 == n2,
    decreases n1,
{
    lemma_dec_rep_digits(n1 / 10);
    lemma_dec_rep_digits(n2 / 10);
    if n1 < 10 && n2 < 10 {
        assert(dec_rep(n1)[0] == dec_digit(n1 as int) && dec_rep(n2)[0] == dec_digit(n2 as int));
        assert(n1 == n2);
    } else if n1 < 10 {
        assert(dec_rep(n1).len() == 1);
        assert(dec_rep(n2).len() == dec_rep(n2 / 10).len() + 1);
        assert(false);
    } else if n2 < 10 {
        assert(dec_rep(n2).len() == 1);
        assert(dec_rep(n1).len() == dec_rep(n1 / 10).len() + 1);
        assert(false);
    } else {
        assert(dec_rep(n1).last() == dec_digit((n1 % 10) as int));
        assert(dec_rep(n2).last() == dec_digit((n2 % 10) as int));
        assert(n1 % 10 == n2 % 10);
        assert(dec_rep(n1).drop_last() =~= dec_rep(n1 / 10));
        assert(dec_rep(n2).drop_last() =~= dec_rep(n2 / 10));
        lemma_dec_rep_inj(n1 / 10, n2 / 10);
    }
}

/// Decimal renderings followed by anything that is not a digit are
/// uniquely decodable.
proof fn lemma_dec_rep_prefix(n1: nat, n2: nat, x: Seq<char>, y: Seq<char>)
    requires
        dec_rep(n1) + x == dec_rep(n2) + y,
        x.len() > 0,
        y.len() > 0,
        !is_digit_char(x[0]),
        !is_digit_char(y[0]),
    ensures
        n1 == n2,
        x == y,
{
    lemma_dec_rep_digits(n1);
    lemma_dec_rep_digits(n2);
    let a1 = dec_rep(n1);
    let a2 = dec_rep(n2);
    let s = a1 + x;
    if a1.len() < a2.len() {
        assert(s[a1.len() as int] == x[0]);
        assert(s[a1.len() as int] == a2[a1.len() as int]);
        assert(false);
    }
    if a2.len() < a1.len() {
        assert(s[a2.len() as int] == y[0]);
        assert(s[a2.len() as int] == a1[a2.len() as int]);
        assert(false);
    }
    assert forall|i: int| 0 <= i < a1.len() implies a1[i] == a2[i] by {
        assert(s[i] == a1[i] && s[i] == a2[i]);
    }
    assert(a1 =~= a2);
    lemma_dec_rep_inj(n1, n2);
    lemma_prepend_cancel(a1, x, y);
}

/// Status tags are uniquely decodable.
proof fn lemma_status_lit_prefix(s1: TaskStatus, s2: TaskStatus, x: Seq<char>, y: Seq<char>)
    requires
        status_lit(s1) + x == status_lit(s2) + y,
    ensures
        s1 == s2,
        x == y,
{
    reveal_strlit("\"Todo\"");
    reveal_strlit("\"InProgress\"");
    reveal_strlit("\"Done\"");
    let s = status_lit(s1) + x;
    assert(s[1] == status_lit(s1)[1] && s[1] == status_lit(s2)[1]);
    assert(s1 == s2);
    lemma_prepend_cancel(status_lit(s1), x, y);
}

/// Priority tags are uniquely decodable.
proof fn lemma_priority_lit_prefix(p1: TaskPriority, p2: TaskPriority, x: Seq<char>, y: Seq<char>)
    requires
        priority_lit(p1) + x == priority_lit(p2) + y,
    ensures
        p1 == p2,
        x == y,
{
    reveal_strlit("\"Low\"");
    reveal_strlit("\"Medium\"");
    reveal_strlit("\"High\"");
    let s = priority_lit(p1) + x;
    assert(s[1] == priority_lit(p1)[1] && s[1] == priority_lit(p2)[1]);
    assert(p1 == p2);
    lemma_prepend_cancel(priority_lit(p1), x, y);
}

/// The fully right-nested reading of one encoded record followed by `x`,
/// the shape the decoding lemmas peel from the left.
#[verifier::rlimit(100)]
proof fn lemma_enc_task_unroll(t: Task, x: Seq<char>)
    ensures
        enc_task(t) + x == "{\n    \"id\": "@ + (dec_rep(t.id as nat) + (",\n    \"title\": "@ + (enc_string(t.title@) + (",\n    \"description\": "@
            + (enc_string(t.description@) + (",\n    \"status\": "@ + (status_lit(t.status) + (",\n    \"created_at\": "@ + (enc_string(
            t.created_at@,
        ) + (",\n    \"priority\": "@ + (priority_lit(t.priority) + ("\n  }"@ + x)))))))))))),
{
    let p1 = "{\n    \"id\": "@ + dec_rep(t.id as nat);
    let p2 = p1 + ",\n    \"title\": "@;
    let p3 = p2 + enc_string(t.title@);
    let p4 = p3 + ",\n    \"description\": "@;
    let p5 = p4 + enc_string(t.description@);
    let p6 = p5 + ",\n    \"status\": "@;
    let p7 = p6 + status_lit(t.status);
    let p8 = p7 + ",\n    \"created_at\": "@;
    let p9 = p8 + enc_string(t.created_at@);
    let p10 = p9 + ",\n    \"priority\": "@;
    let p11 = p10 + priority_lit(t.priority);
    let r12 = "\n  }"@ + x;
    let r11 = priority_lit(t.priority) + r12;
    let r10 = ",\n    \"priority\": "@ + r11;
    let r9 = enc_string(t.created_at@) + r10;
    let r8 = ",\n    \"created_at\": "@ + r9;
    let r7 = status_lit(t.status) + r8;
    let r6 = ",\n    \"status\": "@ + r7;
    let r5 = enc_string(t.description@) + r6;
    let r4 = ",\n    \"description\": "@ + r5;
    let r3 = enc_string(t.title@) + r4;
    let r2 = ",\n    \"title\": "@ + r3;
    let r1 = dec_rep(t.id as nat) + r2;
    assert(enc_task(t) + x =~= p11 + r12);
    assert(p11 + r12 =~= p10 + r11);
    assert(p10 + r11 =~= p9 + r10);
    assert(p9 + r10 =~= p8 + r9);
    assert(p8 + r9 =~= p7 + r8);
    assert(p7 + r8 =~= p6 + r7);
    assert(p6 + r7 =~= p5 + r6);
    assert(p5 + r6 =~= p4 + r5);
    assert(p4 + r5 =~= p3 + r4);
    assert(p3 + r4 =~= p2 + r3);
    assert(p2 + r3 =~= p1 + r2);
    assert(p1 + r2 =~= "{\n    \"id\": "@ + r1);
}

/// Encoded records are uniquely decodable: when two of them open the same
/// text, they carry the same content and the text past them agrees.
#[verifier::rlimit(100)]
proof fn lemma_enc_task_prefix(t1: Task, t2: Task, x: Seq<char>, y: Seq<char>)
    requires
        enc_task(t1) + x == enc_task(t2) + y,
    ensures
        task_content_eq(t1, t2),
        x == y,
{
    reveal_strlit(",\n    \"title\": ");
    reveal_strlit(",\n    \"description\": ");
    reveal_strlit(",\n    \"status\": ");
    reveal_strlit(",\n    \"created_at\": ");
    reveal_strlit(",\n    \"priority\": ");
    reveal_strlit("\n  }");
    lemma_enc_task_unroll(t1, x);
    lemma_enc_task_unroll(t2, y);
    let a2 = ",\n    \"title\": "@ + (enc_string(t1.title@) + (",\n    \"description\": "@ + (enc_string(t1.description@) + (",\n    \"status\": "@
        + (status_lit(t1.status) + (",\n    \"created_at\": "@ + (enc_string(t1.created_at@) + (",\n    \"priority\": "@ + (priority_lit(
        t1.priority,
    ) + ("\n  }"@ + x))))))))));
    let b2 = ",\n    \"title\": "@ + (enc_string(t2.title@) + (",\n    \"description\": "@ + (enc_string(t2.description@) + (",\n    \"status\": "@
        + (status_lit(t2.status) + (",\n    \"created_at\": "@ + (enc_string(t2.created_at@) + (",\n    \"priority\": "@ + (priority_lit(
        t2.priority,
    ) + ("\n  }"@ + y))))))))));
    lemma_prepend_cancel(
        "{\n    \"id\": "@,
        dec_rep(t1.id as nat) + a2,
        dec_rep(t2.id as nat) + b2,
    );
    assert(a2[0] == ',' && b2[0] == ',');
    lemma_dec_rep_prefix(t1.id as nat, t2.id as nat, a2, b2);
    assert(t1.id == t2.id);
    lemma_prepend_cancel(
        ",\n    \"title\": "@,
        enc_string(t1.title@) + (",\n    \"description\": "@ + (enc_string(t1.description@) + (",\n    \"status\": "@ + (status_lit(
            t1.status,
        ) + (",\n    \"created_at\": "@ + (enc_string(t1.created_at@) + (",\n    \"priority\": "@ + (priority_lit(t1.priority) + ("\n  }"@
            + x))))))))),
        enc_string(t2.title@) + (",\n    \"description\": "@ + (enc_string(t2.description@) + (",\n    \"status\": "@ + (status_lit(
            t2.status,
        ) + (",\n    \"created_at\": "@ + (enc_string(t2.created_at@) + (",\n    \"priority\": "@ + (priority_lit(t2.priority) + ("\n  }"@
            + y))))))))),
    );
    lemma_enc_string_prefix(
        t1.title@,
        t2.title@,
        ",\n    \"description\": "@ + (enc_string(t1.description@) + (",\n    \"status\": "@ + (status_lit(t1.status) + (",\n    \"created_at\": "@
            + (enc_string(t1.created_at@) + (",\n    \"priority\": "@ + (priority_lit(t1.priority) + ("\n  }"@ + x)))))))),
        ",\n    \"description\": "@ + (enc_string(t2.description@) + (",\n    \"status\": "@ + (status_lit(t2.status) + (",\n    \"created_at\": "@
            + (enc_string(t2.created_at@) + (",\n    \"priority\": "@ + (priority_lit(t2.priority) + ("\n  }"@ + y)))))))),
    );
    lemma_prepend_cancel(
        ",\n    \"description\": "@,
        enc_string(t1.description@) + (",\n    \"status\": "@ + (status_lit(t1.status) + (",\n    \"created_at\": "@ + (enc_string(
            t1.created_at@,
        ) + (",\n    \"priority\": "@ + (priority_lit(t1.priority) + ("\n  }"@ + x))))))),
        enc_string(t2.description@) + (",\n    \"status\": "@ + (status_lit(t2.status) + (",\n    \"created_at\": "@ + (enc_string(
            t2.created_at@,
        ) + (",\n    \"priority\": "@ + (priority_lit(t2.priority) + ("\n  }"@ + y))))))),
    );
    lemma_enc_string_prefix(
        t1.description@,
        t2.description@,
        ",\n    \"status\": "@ + (status_lit(t1.status) + (",\n    \"created_at\": "@ + (enc_string(t1.created_at@) + (",\n    \"priority\": "@
            + (priority_lit(t1.priority) + ("\n  }"@ + x)))))),
        ",\n    \"status\": "@ + (status_lit(t2.status) + (",\n    \"created_at\": "@ + (enc_string(t2.created_at@) + (",\n    \"priority\": "@
            + (priority_lit(t2.priority) + ("\n  }"@ + y)))))),
    );
    lemma_prepend_cancel(
        ",\n    \"status\": "@,
        status_lit(t1.status) + (",\n    \"created_at\": "@ + (enc_string(t1.created_at@) + (",\n    \"priority\": "@ + (priority_lit(
            t1.priority,
        ) + ("\n  }"@ + x))))),
        status_lit(t2.status) + (",\n    \"created_at\": "@ + (enc_string(t2.created_at@) + (",\n    \"priority\": "@ + (priority_lit(
            t2.priority,
        ) + ("\n  }"@ + y))))),
    );
    lemma_status_lit_prefix(
        t1.status,
        t2.status,
        ",\n    \"created_at\": "@ + (enc_string(t1.created_at@) + (",\n    \"priority\": "@ + (priority_lit(t1.priority) + ("\n  }"@ + x)))),
        ",\n    \"created_at\": "@ + (enc_string(t2.created_at@) + (",\n    \"priority\": "@ + (priority_lit(t2.priority) + ("\n  }"@ + y)))),
    );
    lemma_prepend_cancel(
        ",\n    \"created_at\": "@,
        enc_string(t1.created_at@) + (",\n    \"priority\": "@ + (priority_lit(t1.priority) + ("\n  }"@ + x))),
        enc_string(t2.created_at@) + (",\n    \"priority\": "@ + (priority_lit(t2.priority) + ("\n  }"@ + y))),
    );
    lemma_enc_string_prefix(
        t1.created_at@,
        t2.created_at@,
        ",\n    \"priority\": "@ + (priority_lit(t1.priority) + ("\n  }"@ + x)),
        ",\n    \"priority\": "@ + (priority_lit(t2.priority) + ("\n  }"@ + y)),
    );
    lemma_prepend_cancel(
        ",\n    \"priority\": "@,
        priority_lit(t1.priority) + ("\n  }"@ + x),
        priority_lit(t2.priority) + ("\n  }"@ + y),
    );
    lemma_priority_lit_prefix(t1.priority, t2.priority, "\n  }"@ + x, "\n  }"@ + y);
    lemma_prepend_cancel("\n  }"@, x, y);
}

/// Encoded map entries are uniquely decodable.
#[verifier::rlimit(100)]
proof fn lemma_enc_entry_prefix(t1: Task, t2: Task, x: Seq<char>, y: Seq<char>)
    requires
        enc_entry(t1) + x == enc_entry(t2) + y,
    ensures
        task_content_eq(t1, t2),
        x == y,
{
    reveal_strlit("\": ");
    let a1 = "  \""@ + dec_rep(t1.id as nat);
    let a2 = "  \""@ + dec_rep(t2.id as nat);
    let r1 = "\": "@ + (enc_task(t1) + x);
    let r2 = "\": "@ + (enc_task(t2) + y);
    assert(enc_entry(t1) + x =~= "  \""@ + (dec_rep(t1.id as nat) + r1));
    assert(enc_entry(t2) + y =~= "  \""@ + (dec_rep(t2.id as nat) + r2));
    lemma_prepend_cancel("  \""@, dec_rep(t1.id as nat) + r1, dec_rep(t2.id as nat) + r2);
    assert(r1[0] == '"' && r2[0] == '"');
    lemma_dec_rep_prefix(t1.id as nat, t2.id as nat, r1, r2);
    lemma_prepend_cancel("\": "@, enc_task(t1) + x, enc_task(t2) + y);
    lemma_enc_task_prefix(t1, t2, x, y);
}

/// Peeling the first entry off an encoded entry list.
#[verifier::rlimit(100)]
proof fn lemma_enc_entries_first(ts: Seq<Task>)
    requires
        ts.len() > 0,
    ensures
        enc_entries(ts) == enc_entry(ts[0]) + (if ts.len() == 1 {
            Seq::<char>::empty()
        } else {
            ",\n"@ + enc_entries(ts.drop_first())
        }),
    decreases ts.len(),
{
    if ts.len() == 1 {
        assert(enc_entries(ts) =~= enc_entry(ts[0]) + Seq::<char>::empty());
    } else {
        let d = ts.drop_last();
        lemma_enc_entries_first(d);
        assert(d[0] == ts[0]);
        let tail = ts.drop_first();
        assert(tail.last() == ts.last());
        assert(d.drop_first() =~= tail.drop_last());
        if ts.len() == 2 {
            assert(enc_entries(d) == enc_entry(ts[0]));
            assert(enc_entries(tail) == enc_entry(tail[0]));
            assert(tail[0] == ts[1] && ts.last() == ts[1]);
            assert(enc_entries(ts) =~= enc_entry(ts[0]) + (",\n"@ + enc_entries(tail)));
        } else {
            assert(enc_entries(d) == enc_entry(ts[0]) + (",\n"@ + enc_entries(d.drop_first())));
            assert(enc_entries(tail) == enc_entries(tail.drop_last()) + ",\n"@ + enc_entry(
                tail.last(),
            ));
            assert(enc_entries(ts) == enc_entries(d) + ",\n"@ + enc_entry(ts.last()));
            assert(enc_entries(ts) =~= enc_entry(ts[0]) + (",\n"@ + enc_entries(tail)));
        }
    }
}

/// Entry lists closed by the object's final line are uniquely decodable.
#[verifier::rlimit(100)]
proof fn lemma_entries_suffix_inj(ts1: Seq<Task>, ts2: Seq<Task>)
    requires
        ts1.len() > 0,
        ts2.len() > 0,
        enc_entries(ts1) + "\n}"@ == enc_entries(ts2) + "\n}"@,
    ensures
        ts1.len() == ts2.len(),
        forall|k: int| 0 <= k < ts1.len() ==> task_content_eq(ts1[k], ts2[k]),
    decreases ts1.len(),
{
    reveal_strlit(",\n");
    reveal_strlit("\n}");
    lemma_enc_entries_first(ts1);
    lemma_enc_entries_first(ts2);
    let rest1: Seq<char> = if ts1.len() == 1 {
        "\n}"@
    } else {
        ",\n"@ + (enc_entries(ts1.drop_first()) + "\n}"@)
    };
    let rest2: Seq<char> = if ts2.len() == 1 {
        "\n}"@
    } else {
        ",\n"@ + (enc_entries(ts2.drop_first()) + "\n}"@)
    };
    assert(enc_entries(ts1) + "\n}"@ =~= enc_entry(ts1[0]) + rest1);
    assert(enc_entries(ts2) + "\n}"@ =~= enc_entry(ts2[0]) + rest2);
    lemma_enc_entry_prefix(ts1[0], ts2[0], rest1, rest2);
    if ts1.len() == 1 && ts2.len() == 1 {
    } else if ts1.len() == 1 {
        assert(rest1[0] == '\n' && rest2[0] == ',');
        assert(false);
    } else if ts2.len() == 1 {
        assert(rest1[0] == ',' && rest2[0] == '\n');
        assert(false);
    } else {
        lemma_prepend_cancel(
            ",\n"@,
            enc_entries(ts1.drop_first()) + "\n}"@,
            enc_entries(ts2.drop_first()) + "\n}"@,
        );
        lemma_entries_suffix_inj(ts1.drop_first(), ts2.drop_first());
        assert forall|k: int| 0 <= k < ts1.len() implies task_content_eq(ts1[k], ts2[k]) by {
            if k > 0 {
                assert(ts1[k] == ts1.drop_first()[k - 1] && ts2[k] == ts2.drop_first()[k - 1]);
                assert(task_content_eq(ts1.drop_first()[k - 1], ts2.drop_first()[k - 1]));
            }
        }
    }
}

/// Law: a snapshot determines its store. Two task collections with the
/// same canonical snapshot hold the same tasks, entry for entry — so a
/// store written to disk and one constructed back from that text agree on
/// every task, which is what the contracts of `to_json` and `from_json`
/// hand a caller for the two sides.
pub proof fn lemma_snapshot_determines_content(ts1: Seq<Task>, ts2: Seq<Task>)
    requires
        spec_serialize(ts1) == spec_serialize(ts2),
    ensures
        ts1.len() == ts2.len(),
        forall|k: int| 0 <= k < ts1.len() ==> task_content_eq(ts1[k], ts2[k]),
{
    reveal_strlit("{}");
    reveal_strlit("{\n");
    reveal_strlit("\n}");
    if ts1.len() == 0 && ts2.len() == 0 {
    } else if ts1.len() == 0 || ts2.len() == 0 {
        let e = if ts1.len() == 0 { ts2 } else { ts1 };
        assert(spec_serialize(e)[1] == ("{\n"@ + enc_entries(e) + "\n}"@)[1]);
        assert(spec_serialize(e)[1] == '\n');
        assert(false);
    } else {
        assert(spec_serialize(ts1) =~= "{\n"@ + (enc_entries(ts1) + "\n}"@));
        assert(spec_serialize(ts2) =~= "{\n"@ + (enc_entries(ts2) + "\n}"@));
        lemma_prepend_cancel("{\n"@, enc_entries(ts1) + "\n}"@, enc_entries(ts2) + "\n}"@);
        lemma_entries_suffix_inj(ts1, ts2);
    }
}

/// Law: text that is empty, or does not open with `{`, is the snapshot of
/// no store at all — so constructing a store from it is rejected as
/// corrupt rather than answered with an empty store (`from_json` promises
/// that whatever it accepts is the snapshot of its result).
pub proof fn lemma_non_snapshot_rejected(s: Seq<char>)
    requires
        s.len() < 2 || s[0] != '{',
    ensures
        forall|ts: Seq<Task>| s != #[trigger] spec_serialize(ts),
{
    assert forall|ts: Seq<Task>| s != #[trigger] spec_serialize(ts) by {
        reveal_strlit("{}");
        reveal_strlit("{\n");
        reveal_strlit("\n}");
        if ts.len() == 0 {
            assert(spec_serialize(ts).len() == 2 && spec_serialize(ts)[0] == '{');
        } else {
            assert(spec_serialize(ts)[0] == '{');
            assert(spec_serialize(ts).len() >= 4);
        }
    }
}

/// Relies on `String::push`: appends exactly the one character.
#[verifier::external_body]
fn push_char(out: &mut String, c: char)
    ensures
        final(out)@ == old(out)@ + seq![c],
{
    out.push(c)
}

/// Relies on `char::from_u32`: `Some` exactly for valid scalar values —
/// everything but the surrogate range and values past the highest code
/// point — and the returned character has the given code point.
#[verifier::external_body]
fn char_from_u32(x: u32) -> (r: Option<char>)
    ensures
        r matches Some(c) ==> c as u32 == x,
        (x < 0xd800 || (0xe000 <= x && x <= 0x10ffff)) ==> r is Some,
{
    char::from_u32(x)
}

/// Executable counterpart of [`hex_digit`].
fn hex_digit_char(d: u32) -> (r: char)
    requires
        d < 16,
    ensures
        r == hex_digit(d as int),
{
    if d == 0 {
        '0'
    } else if d == 1 {
        '1'
    } else if d == 2 {
        '2'
    } else if d == 3 {
        '3'
    } else if d == 4 {
        '4'
    } else if d == 5 {
        '5'
    } else if d == 6 {
        '6'
    } else if d == 7 {
        '7'
    } else if d == 8 {
        '8'
    } else if d == 9 {
        '9'
    } else if d == 10 {
        'a'
    } else if d == 11 {
        'b'
    } else if d == 12 {
        'c'
    } else if d == 13 {
        'd'
    } else if d == 14 {
        'e'
    } else {
        'f'
    }
}

/// Appends the escaped form of one character.
fn append_escaped(out: &mut String, c: char)
    ensures
        final(out)@ == old(out)@ + esc_char(c),
{
    if c == '"' {
        out.append("\\\"");
    } else if c == '\\' {
        out.append("\\\\");
    } else if c == '\u{8}' {
        out.append("\\b");
    } else if c == '\t' {
        out.append("\\t");
    } else if c == '\n' {
        out.append("\\n");
    } else if c == '\u{c}' {
        out.append("\\f");
    } else if c == '\r' {
        out.append("\\r");
    } else {
        let u = c as u32;
        if u < 0x20 {
            out.append("\\u00");
            push_char(out, hex_digit_char(u / 16));
            push_char(out, hex_digit_char(u % 16));
            proof {
                assert(out@ =~= old(out)@ + esc_char(c));
            }
        } else {
            push_char(out, c);
        }
    }
}

/// Appends a complete JSON string literal for `s`.
fn append_json_string(out: &mut String, s: &str)
    ensures
        final(out)@ == old(out)@ + enc_string(s@),
{
    push_char(out, '"');
    let n = s.unicode_len();
    for i in 0..n
        invariant
            n == s@.len(),
            out@ == old(out)@ + seq!['"'] + enc_body(s@.take(i as int)),
    {
        let ghost before = s@.take(i as int);
        let ghost after = s@.take(i + 1 as int);
        proof {
            assert(after.drop_last() =~= before);
            assert(after.last() == s@[i as int]);
        }
        let c = s.get_char(i);
        append_escaped(out, c);
        proof {
            assert(out@ =~= old(out)@ + seq!['"'] + enc_body(after));
        }
    }
    push_char(out, '"');
    proof {
        assert(s@.take(n as int) =~= s@);
        assert(out@ =~= old(out)@ + enc_string(s@));
    }
}

/// Appends the decimal rendering of `n`.
fn append_u32(out: &mut String, n: u32)
    ensures
        final(out)@ == old(out)@ + dec_rep(n as nat),
    decreases n,
{
    if n < 10 {
        push_char(out, hex_digit_char(n));
    } else {
        append_u32(out, n / 10);
        push_char(out, hex_digit_char(n % 10));
        proof {
            assert(out@ =~= old(out)@ + dec_rep(n as nat));
        }
    }
}

/// Appends one task record.
fn append_task(out: &mut String, t: &Task)
    ensures
        final(out)@ == old(out)@ + enc_task(*t),
{
    let ghost base = old(out)@;
    out.append("{\n    \"id\": ");
    append_u32(out, t.id);
    let ghost p1 = "{\n    \"id\": "@ + dec_rep(t.id as nat);
    proof {
        assert(out@ =~= base + p1);
    }
    out.append(",\n    \"title\": ");
    append_json_string(out, t.title.as_str());
    let ghost p2 = p1 + ",\n    \"title\": "@ + enc_string(t.title@);
    proof {
        assert(out@ =~= base + p2);
    }
    out.append(",\n    \"description\": ");
    append_json_string(out, t.description.as_str());
    let ghost p3 = p2 + ",\n    \"description\": "@ + enc_string(t.description@);
    proof {
        assert(out@ =~= base + p3);
    }
    out.append(",\n    \"status\": ");
    match t.status {
        TaskStatus::Todo => out.append("\"Todo\""),
        TaskStatus::InProgress => out.append("\"InProgress\""),
        TaskStatus::Done => out.append("\"Done\""),
    }
    let ghost p4 = p3 + ",\n    \"status\": "@ + status_lit(t.status);
    proof {
        assert(out@ =~= base + p4);
    }
    out.append(",\n    \"created_at\": ");
    append_json_string(out, t.created_at.as_str());
    let ghost p5 = p4 + ",\n    \"created_at\": "@ + enc_string(t.created_at@);
    proof {
        assert(out@ =~= base + p5);
    }
    out.append(",\n    \"priority\": ");
    match t.priority {
        TaskPriority::Low => out.append("\"Low\""),
        TaskPriority::Medium => out.append("\"Medium\""),
        TaskPriority::High => out.append("\"High\""),
    }
    let ghost p6 = p5 + ",\n    \"priority\": "@ + priority_lit(t.priority);
    proof {
        assert(out@ =~= base + p6);
    }
    out.append("\n  }");
    proof {
        assert(out@ =~= base + (p6 + "\n  }"@));
        assert(p6 + "\n  }"@ =~= enc_task(*t));
    }
}

/// Appends one map entry (key and record).
fn append_entry(out: &mut String, t: &Task)
    ensures
        final(out)@ == old(out)@ + enc_entry(*t),
{
    out.append("  \"");
    append_u32(out, t.id);
    out.append("\": ");
    append_task(out, t);
    proof {
        assert(out@ =~= old(out)@ + enc_entry(*t));
    }
}

/// Renders the canonical snapshot of `tasks`.
pub fn serialize_tasks(tasks: &Vec<Task>) -> (r: String)
    ensures
        r@ == spec_serialize(tasks@),
{
    let n = tasks.len();
    if n == 0 {
        return String::from_str("{}");
    }
    let mut out = String::from_str("{\n");
    for i in 0..n
        invariant
            n == tasks@.len(),
            n > 0,
            i == 0 ==> out@ == "{\n"@,
            i > 0 ==> out@ == "{\n"@ + enc_entries(tasks@.take(i as int)),
    {
        let ghost before = tasks@.take(i as int);
        let ghost after = tasks@.take(i + 1 as int);
        proof {
            assert(after.drop_last() =~= before);
            assert(after.last() == tasks@[i as int]);
            assert(after[0] == tasks@[0]);
        }
        if i > 0 {
            out.append(",\n");
        }
        append_entry(&mut out, &tasks[i]);
        proof {
            assert(out@ =~= "{\n"@ + enc_entries(after));
        }
    }
    out.append("\n}");
    proof {
        assert(tasks@.take(n as int) =~= tasks@);
        assert(out@ =~= spec_serialize(tasks@));
    }
    out
}

/// Checks that `lit` occurs in `s` at character position `i` and steps past
/// it. Part of the best-effort scanner: exactness of the reader comes from
/// re-encoding, not from these contracts.
fn expect_lit(s: &str, i: usize, lit: &str) -> (r: Option<usize>)
    requires
        i <= s@.len(),
    ensures
        r matches Some(j) ==> i + lit@.len() == j <= s@.len(),
{
    let n = s.unicode_len();
    let m = lit.unicode_len();
    let mut j = i;
    let mut k: usize = 0;
    while k < m
        invariant
            n == s@.len(),
            m == lit@.len(),
            i <= j <= n,
            k <= m,
            j == i + k,
        decreases m - k,
    {
        if j >= n {
            return None;
        }
        if s.get_char(j) != lit.get_char(k) {
            return None;
        }
        j = j + 1;
        k = k + 1;
    }
    Some(j)
}

/// Scans a decimal number at position `i`; fails on no digits or on a
/// value that does not fit in `u32`.
fn scan_u32(s: &str, i: usize) -> (r: Option<(u32, usize)>)
    requires
        i <= s@.len(),
    ensures
        r matches Some(p) ==> i < p.1 <= s@.len(),
{
    let n = s.unicode_len();
    let mut j = i;
    let mut val: u64 = 0;
    while j < n
        invariant
            n == s@.len(),
            i <= j <= n,
            val <= u32::MAX as u64,
        decreases n - j,
    {
        let u = s.get_char(j) as u32;
        if u < 48 || u > 57 {
            break;
        }
        val = val * 10 + (u - 48) as u64;
        if val > u32::MAX as u64 {
            return None;
        }
        j = j + 1;
    }
    if j == i {
        None
    } else {
        Some((val as u32, j))
    }
}

/// Scans a JSON string literal at position `i`, undoing the escapes that
/// [`append_escaped`] writes.
fn scan_string(s: &str, i: usize) -> (r: Option<(String, usize)>)
    requires
        i <= s@.len(),
    ensures
        r matches Some(p) ==> i < p.1 <= s@.len(),
{
    let n = s.unicode_len();
    if i >= n || s.get_char(i) != '"' {
        return None;
    }
    let mut out = String::new();
    let mut j = i + 1;
    while j < n
        invariant
            n == s@.len(),
            i < j <= n,
        decreases n - j,
    {
        let c = s.get_char(j);
        if c == '"' {
            return Some((out, j + 1));
        }
        if c == '\\' {
            if n - j < 2 {
                return None;
            }
            let e = s.get_char(j + 1);
            if e == '"' {
                push_char(&mut out, '"');
            } else if e == '\\' {
                push_char(&mut out, '\\');
            } else if e == 'b' {
                push_char(&mut out, '\u{8}');
            } else if e == 't' {
                push_char(&mut out, '\t');
            } else if e == 'n' {
                push_char(&mut out, '\n');
            } else if e == 'f' {
                push_char(&mut out, '\u{c}');
            } else if e == 'r' {
                push_char(&mut out, '\r');
            } else if e == 'u' {
                if n - j < 6 {
                    return None;
                }
                let d0 = hex_val(s.get_char(j + 2))?;
                let d1 = hex_val(s.get_char(j + 3))?;
                let d2 = hex_val(s.get_char(j + 4))?;
                let d3 = hex_val(s.get_char(j + 5))?;
                let code = ((d0 * 16 + d1) * 16 + d2) * 16 + d3;
                match char_from_u32(code) {
                    Some(decoded) => {
                        push_char(&mut out, decoded);
                    },
                    None => {
                        return None;
                    },
                }
                j = j + 4;
            } else {
                return None;
            }
            j = j + 2;
        } else {
            push_char(&mut out, c);
            j = j + 1;
        }
    }
    None
}

/// The value of a hexadecimal digit character, if it is one.
fn hex_val(c: char) -> (r: Option<u32>)
    ensures
        r matches Some(d) ==> d < 16,
{
    let u = c as u32;
    if 48 <= u && u <= 57 {
        Some(u - 48)
    } else if 97 <= u && u <= 102 {
        Some(u - 97 + 10)
    } else if 65 <= u && u <= 70 {
        Some(u - 65 + 10)
    } else {
        None
    }
}

/// Scans one task record at position `i`.
fn scan_task(s: &str, i: usize) -> (r: Option<(Task, usize)>)
    requires
        i <= s@.len(),
    ensures
        r matches Some(p) ==> i < p.1 <= s@.len(),
{
    let j = expect_lit(s, i, "{\n    \"id\": ")?;
    let (id, j) = scan_u32(s, j)?;
    let j = expect_lit(s, j, ",\n    \"title\": ")?;
    let (title, j) = scan_string(s, j)?;
    let j = expect_lit(s, j, ",\n    \"description\": ")?;
    let (description, j) = scan_string(s, j)?;
    let j = expect_lit(s, j, ",\n    \"status\": ")?;
    let (status_tag, j) = scan_string(s, j)?;
    let j = expect_lit(s, j, ",\n    \"created_at\": ")?;
    let (created_at, j) = scan_string(s, j)?;
    let j = expect_lit(s, j, ",\n    \"priority\": ")?;
    let (priority_tag, j) = scan_string(s, j)?;
    let j = expect_lit(s, j, "\n  }")?;
    let status = if status_tag == String::from_str("Todo") {
        TaskStatus::Todo
    } else if status_tag == String::from_str("InProgress") {
        TaskStatus::InProgress
    } else if status_tag == String::from_str("Done") {
        TaskStatus::Done
    } else {
        return None;
    };
    let priority = if priority_tag == String::from_str("Low") {
        TaskPriority::Low
    } else if priority_tag == String::from_str("Medium") {
        TaskPriority::Medium
    } else if priority_tag == String::from_str("High") {
        TaskPriority::High
    } else {
        return None;
    };
    Some((Task { id, title, description, status, created_at, priority }, j))
}

/// Scans one map entry (quoted decimal key, `": "`, record) at position
/// `i`. The key is not compared against the record's id here: a mismatch
/// surfaces when the caller re-encodes the result.
fn scan_entry(s: &str, i: usize) -> (r: Option<(Task, usize)>)
    requires
        i <= s@.len(),
    ensures
        r matches Some(p) ==> i < p.1 <= s@.len(),
{
    let j = expect_lit(s, i, "  \"")?;
    let (_key, j) = scan_u32(s, j)?;
    let j = expect_lit(s, j, "\": ")?;
    let (task, j) = scan_task(s, j)?;
    Some((task, j))
}

/// Best-effort reading of a snapshot: recovers the task list from text in
/// the canonical layout, or fails. Callers establish exactness by
/// re-encoding the result and comparing with the input; what is promised
/// here is only that the empty snapshot is always accepted.
pub(crate) fn parse_tasks(s: &str) -> (r: Option<Vec<Task>>)
    ensures
        s@ == spec_serialize(Seq::<Task>::empty()) ==> (r matches Some(v) && v@.len() == 0),
{
    proof {
        reveal_strlit("{}");
        assert(spec_serialize(Seq::<Task>::empty()) == "{}"@);
    }
    let n = s.unicode_len();
    let mut tasks: Vec<Task> = Vec::new();
    if n == 2 && s.get_char(0) == '{' && s.get_char(1) == '}' {
        return Some(tasks);
    }
    let first = expect_lit(s, 0, "{\n");
    let mut i = match first {
        Some(j) => j,
        None => {
            return None;
        },
    };
    loop
        invariant
            n == s@.len(),
            i <= n,
            s@ != spec_serialize(Seq::<Task>::empty()),
        decreases n - i,
    {
        let (task, j) = match scan_entry(s, i) {
            Some(p) => p,
            None => {
                return None;
            },
        };
        tasks.push(task);
        i = j;
        match expect_lit(s, i, ",\n") {
            Some(j2) => {
                proof {
                    reveal_strlit(",\n");
                }
                i = j2;
            },
            None => {
                let close = expect_lit(s, i, "\n}");
                match close {
                    Some(j3) => {
                        if j3 == n {
                            return Some(tasks);
                        }
                        return None;
                    },
                    None => {
                        return None;
                    },
                }
            },
        }
    }
}

} // verus!
