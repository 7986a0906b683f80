//! What is written is read back: requests in their plain shape are read
//! as they were sent, and responses can be read with the reader that reads
//! requests.

use vstd::prelude::*;
use vstd::utf8::encode_utf8;
use crate::connection::{
    content_length, declared_length, lemma_read_header_end, lemma_read_header_line,
    read_headers, read_request, Headers, Reading,
};
use crate::request::{lemma_parse_get, lemma_parse_post, RequestView};
use crate::response::{output, wire_bytes, ResponseView, HTML_TYPE, STATUS_OK};
use crate::text::{
    all_whitespace, decimal, is_digit, is_whitespace, lemma_decimal_round_trip,
    lemma_position_of_run, lemma_trim, no_whitespace,
};
use crate::utf8::{lemma_encode_concat, no_line_feed};

verus! {

/// A `Content-Length` line declares the number written on it.
pub proof fn lemma_declared_length(length: nat)
    requires
        length <= usize::MAX,
    ensures
        "Content-Length:"@.is_prefix_of("Content-Length: "@ + decimal(length) + "\r\n"@),
        declared_length("Content-Length: "@ + decimal(length) + "\r\n"@) == length,
{
    reveal_strlit("Content-Length: ");
    reveal_strlit("Content-Length:");
    reveal_strlit("\r\n");
    let name = "Content-Length: "@;
    let number = decimal(length);
    let ending = "\r\n"@;
    let line = name + number + ending;
    let text = name + number;
    let none = Seq::<char>::empty();
    lemma_decimal_round_trip(length);
    assert(forall|k: int| 0 <= k < number.len() ==> is_digit(#[trigger] number[k]));
    assert(!is_whitespace(text.last())) by {
        assert(text.last() == number.last());
        assert(is_digit(number[number.len() - 1]));
    }
    assert(line == none + text + ending);
    assert(all_whitespace(none));
    assert(all_whitespace(ending));
    lemma_trim(none, text, ending);
    assert forall|k: int| 15 <= k < text.len() implies #[trigger] text[k] != ':' by {
        if k >= 16 {
            assert(text[k] == number[k - 16]);
            assert(is_digit(number[k - 16]));
        }
    }
    lemma_position_of_run(text, ':', 0, 14);
    lemma_position_of_run(text, ':', 15, text.len() as int);
    let value = text.subrange(15, text.len() as int);
    let space = seq![' '];
    assert(value == space + number + none);
    assert(all_whitespace(space));
    assert(!is_whitespace(number[0])) by {
        assert(is_digit(number[0]));
    }
    assert(!is_whitespace(number.last())) by {
        assert(is_digit(number[number.len() - 1]));
    }
    lemma_trim(space, number, none);
}

/// The text that comes before the body of a `POST`: the request line, the
/// header with the length of the body, and the empty line.
pub open spec fn post_head(path: Seq<char>, length: nat) -> Seq<char> {
    "POST "@ + path + " HTTP/1.1\r\nContent-Length: "@ + decimal(length) + "\r\n\r\n"@
}

/// A `POST` that comes with the length of its body is read as it was sent:
/// the request has the path of the request line and the body that follows
/// the headers, which has the declared length.
pub proof fn lemma_read_post(path: Seq<char>, body: Seq<char>, ended: bool)
    requires
        path.len() > 0,
        no_whitespace(path),
        encode_utf8(body).len() <= usize::MAX,
    ensures
        read_request(
            encode_utf8(post_head(path, encode_utf8(body).len())) + encode_utf8(body),
            ended,
        ) == Reading::Ready(RequestView::Post(path, body)),
{
    reveal_strlit("POST ");
    reveal_strlit(" HTTP/1.1\r\nContent-Length: ");
    reveal_strlit("\r\n\r\n");
    reveal_strlit(" HTTP/1.1");
    reveal_strlit("\r\n");
    reveal_strlit("Content-Length: ");
    let length = encode_utf8(body).len();
    let number = decimal(length);
    let head = post_head(path, length);
    let input = encode_utf8(head) + encode_utf8(body);
    let feed = seq!['\n'];
    let first = "POST "@ + path + " HTTP/1.1"@ + seq!['\r'];
    let second = "Content-Length: "@ + number + seq!['\r'];
    let last = seq!['\r', '\n'];
    lemma_decimal_round_trip(length);
    assert(head == first + feed + second + feed + last);
    lemma_encode_concat(first + feed + second + feed, last);
    lemma_encode_concat(first + feed + second, feed);
    lemma_encode_concat(first + feed, second);
    lemma_encode_concat(first, feed);
    assert(encode_utf8(feed) == seq![10u8]) by {
        assert(vstd::utf8::is_ascii_chars(feed));
        vstd::utf8::is_ascii_chars_encode_utf8(feed);
    }
    assert(encode_utf8(last) == seq![13u8, 10u8]) by {
        assert(vstd::utf8::is_ascii_chars(last));
        vstd::utf8::is_ascii_chars_encode_utf8(last);
    }
    let one = encode_utf8(first);
    let two = encode_utf8(second);
    assert(input == one + seq![10u8] + two + seq![10u8] + seq![13u8, 10u8] + encode_utf8(body));
    let second_start: int = (one.len() + 1) as int;
    let last_start: int = second_start + two.len() + 1;
    let body_start: int = last_start + 2;
    assert(no_line_feed(first)) by {
        assert forall|i: int| 0 <= i < first.len() implies (#[trigger] first[i]) as u32 != 10 by {
            if 5 <= i < 5 + path.len() {
                assert(first[i] == path[i - 5]);
                assert(!is_whitespace(path[i - 5]));
            }
        }
    }
    assert(no_line_feed(second)) by {
        assert forall|i: int| 0 <= i < second.len() implies (#[trigger] second[i]) as u32
            != 10 by {
            if 16 <= i < 16 + number.len() {
                assert(second[i] == number[i - 16]);
                assert(is_digit(number[i - 16]));
            }
        }
    }
    assert(input.subrange(0, one.len() as int) == one);
    assert(input.subrange(second_start, second_start + two.len()) == two);
    lemma_read_header_line(input, ended, 0, first);
    lemma_read_header_line(input, ended, second_start, second);
    lemma_read_header_end(input, ended, last_start);
    let lines = seq![first.push('\n'), second.push('\n')];
    assert(read_headers(input, ended, 0) == (Headers::Complete { lines, body_start })) by {
        assert(seq![first.push('\n')] + (seq![second.push('\n')] + Seq::<Seq<char>>::empty())
            == lines);
    }
    assert(first.push('\n') == "POST "@ + path + " HTTP/1.1"@ + "\r\n"@);
    assert(all_whitespace("\r\n"@));
    lemma_parse_post(path, "\r\n"@);
    assert(second.push('\n') == "Content-Length: "@ + number + "\r\n"@);
    lemma_declared_length(length);
    assert(lines.drop_first() == seq![second.push('\n')]);
    assert(content_length(lines.drop_first()) == length);
    assert(input.subrange(body_start, body_start + length) == encode_utf8(body));
    vstd::utf8::encode_utf8_valid_utf8(body);
    vstd::utf8::encode_utf8_decode_utf8(body);
}

/// A `GET` is read as it was sent: the request has the path of the request
/// line, and nothing after the headers is waited for.
pub proof fn lemma_read_get(path: Seq<char>, ended: bool)
    requires
        path.len() > 0,
        no_whitespace(path),
    ensures
        read_request(encode_utf8("GET "@ + path + " HTTP/1.1\r\n\r\n"@), ended)
            == Reading::Ready(RequestView::Get(path)),
{
    reveal_strlit("GET ");
    reveal_strlit(" HTTP/1.1\r\n\r\n");
    reveal_strlit(" HTTP/1.1");
    reveal_strlit("\r\n");
    let head = "GET "@ + path + " HTTP/1.1\r\n\r\n"@;
    let input = encode_utf8(head);
    let feed = seq!['\n'];
    let first = "GET "@ + path + " HTTP/1.1"@ + seq!['\r'];
    let last = seq!['\r', '\n'];
    assert(head == first + feed + last);
    lemma_encode_concat(first + feed, last);
    lemma_encode_concat(first, feed);
    assert(encode_utf8(feed) == seq![10u8]) by {
        assert(vstd::utf8::is_ascii_chars(feed));
        vstd::utf8::is_ascii_chars_encode_utf8(feed);
    }
    assert(encode_utf8(last) == seq![13u8, 10u8]) by {
        assert(vstd::utf8::is_ascii_chars(last));
        vstd::utf8::is_ascii_chars_encode_utf8(last);
    }
    let one = encode_utf8(first);
    assert(input == one + seq![10u8] + seq![13u8, 10u8]);
    assert(no_line_feed(first)) by {
        assert forall|i: int| 0 <= i < first.len() implies (#[trigger] first[i]) as u32 != 10 by {
            if 4 <= i < 4 + path.len() {
                assert(first[i] == path[i - 4]);
                assert(!is_whitespace(path[i - 4]));
            }
        }
    }
    assert(input.subrange(0, one.len() as int) == one);
    lemma_read_header_line(input, ended, 0, first);
    lemma_read_header_end(input, ended, (one.len() + 1) as int);
    let lines = seq![first.push('\n')];
    assert(read_headers(input, ended, 0) == (Headers::Complete {
        lines,
        body_start: (one.len() + 3) as int,
    })) by {
        assert(seq![first.push('\n')] + Seq::<Seq<char>>::empty() == lines);
    }
    assert(first.push('\n') == "GET "@ + path + " HTTP/1.1"@ + "\r\n"@);
    assert(all_whitespace("\r\n"@));
    lemma_parse_get(path, "\r\n"@);
}

/// What is written can be read back: the bytes laid out for a response
/// begin with three header lines, the status line, the content type and the
/// content length, which declares the length of the body in bytes, and end
/// with the body, which begins after the empty line.
pub proof fn lemma_output_reads_back(
    status: Seq<char>,
    content_type: Seq<char>,
    body: Seq<char>,
    ended: bool,
)
    requires
        status.len() > 0,
        status[0] as u32 <= 0x7F,
        status[0] as u32 != 13,
        no_line_feed(status),
        no_line_feed(content_type),
        encode_utf8(body).len() <= usize::MAX,
    ensures
        ({
            let bytes = encode_utf8(output(status, content_type, body));
            let length = encode_utf8(body).len();
            let lines = seq![
                status + "\r\n"@,
                "Content-Type: "@ + content_type + "\r\n"@,
                "Content-Length: "@ + decimal(length) + "\r\n"@,
            ];
            &&& length <= bytes.len()
            &&& read_headers(bytes, ended, 0) == (Headers::Complete {
                lines,
                body_start: bytes.len() - length,
            })
            &&& content_length(lines.drop_first()) == length
            &&& bytes.subrange(bytes.len() - length, bytes.len() as int) == encode_utf8(body)
        }),
{
    reveal_strlit("\r\n");
    reveal_strlit("\r\n\r\n");
    reveal_strlit("\r\nContent-Type: ");
    reveal_strlit("\r\nContent-Length: ");
    reveal_strlit("Content-Type: ");
    reveal_strlit("Content-Length: ");
    reveal_strlit("Content-Length:");
    let length = encode_utf8(body).len();
    let number = decimal(length);
    let text = output(status, content_type, body);
    let bytes = encode_utf8(text);
    let feed = seq!['\n'];
    let back = seq!['\r'];
    let first = status + back;
    let second = "Content-Type: "@ + content_type + back;
    let third = "Content-Length: "@ + number + back;
    let last = seq!['\r', '\n'];
    lemma_decimal_round_trip(length);
    assert(text == first + feed + second + feed + third + feed + last + body);
    lemma_encode_concat(first + feed + second + feed + third + feed + last, body);
    lemma_encode_concat(first + feed + second + feed + third + feed, last);
    lemma_encode_concat(first + feed + second + feed + third, feed);
    lemma_encode_concat(first + feed + second + feed, third);
    lemma_encode_concat(first + feed + second, feed);
    lemma_encode_concat(first + feed, second);
    lemma_encode_concat(first, feed);
    assert(encode_utf8(feed) == seq![10u8]) by {
        assert(vstd::utf8::is_ascii_chars(feed));
        vstd::utf8::is_ascii_chars_encode_utf8(feed);
    }
    assert(encode_utf8(last) == seq![13u8, 10u8]) by {
        assert(vstd::utf8::is_ascii_chars(last));
        vstd::utf8::is_ascii_chars_encode_utf8(last);
    }
    let one = encode_utf8(first);
    let two = encode_utf8(second);
    let three = encode_utf8(third);
    assert(bytes == one + seq![10u8] + two + seq![10u8] + three + seq![10u8] + seq![13u8, 10u8]
        + encode_utf8(body));
    let second_start: int = (one.len() + 1) as int;
    let third_start: int = second_start + two.len() + 1;
    let last_start: int = third_start + three.len() + 1;
    assert(no_line_feed(first)) by {
        assert forall|i: int| 0 <= i < first.len() implies (#[trigger] first[i]) as u32 != 10 by {
            if i < status.len() {
                assert(first[i] == status[i]);
            }
        }
    }
    assert(no_line_feed(second)) by {
        assert forall|i: int| 0 <= i < second.len() implies (#[trigger] second[i]) as u32
            != 10 by {
            if 14 <= i < 14 + content_type.len() {
                assert(second[i] == content_type[i - 14]);
            }
        }
    }
    assert(no_line_feed(third)) by {
        assert forall|i: int| 0 <= i < third.len() implies (#[trigger] third[i]) as u32 != 10 by {
            if 16 <= i < 16 + number.len() {
                assert(third[i] == number[i - 16]);
                assert(is_digit(number[i - 16]));
            }
        }
    }
    assert(first[0] == status[0]);
    assert(bytes.subrange(0, one.len() as int) == one);
    assert(bytes.subrange(second_start, second_start + two.len()) == two);
    assert(bytes.subrange(third_start, third_start + three.len()) == three);
    lemma_read_header_line(bytes, ended, 0, first);
    lemma_read_header_line(bytes, ended, second_start, second);
    lemma_read_header_line(bytes, ended, third_start, third);
    lemma_read_header_end(bytes, ended, last_start);
    let lines = seq![first.push('\n'), second.push('\n'), third.push('\n')];
    assert(seq![first.push('\n')] + (seq![second.push('\n')] + (seq![third.push('\n')]
        + Seq::<Seq<char>>::empty())) == lines);
    assert(first.push('\n') == status + "\r\n"@);
    assert(second.push('\n') == "Content-Type: "@ + content_type + "\r\n"@);
    assert(third.push('\n') == "Content-Length: "@ + number + "\r\n"@);
    lemma_declared_length(length);
    let headers = lines.drop_first();
    assert(headers.drop_first() == seq![third.push('\n')]);
    assert(!"Content-Length:"@.is_prefix_of(headers[0])) by {
        assert(headers[0][8] == 'T');
        assert("Content-Length:"@[8] == 'L');
        if "Content-Length:"@.is_prefix_of(headers[0]) {
            assert(headers[0].subrange(0, 15)[8] == "Content-Length:"@[8]);
        }
    }
    assert(content_length(headers.drop_first()) == length);
    assert(bytes.subrange(bytes.len() - length, bytes.len() as int) == encode_utf8(body));
}

/// A success reads back as it was sent: its status line, the length of its
/// body in bytes, and its body.
pub proof fn lemma_success_reads_back(body: Seq<char>, ended: bool)
    requires
        encode_utf8(body).len() <= usize::MAX,
    ensures
        ({
            let bytes = wire_bytes(ResponseView::Success(body));
            let length = encode_utf8(body).len();
            let lines = seq![
                "HTTP/1.0 200 OK\r\n"@,
                "Content-Type: text/html\r\n"@,
                "Content-Length: "@ + decimal(length) + "\r\n"@,
            ];
            &&& length <= bytes.len()
            &&& read_headers(bytes, ended, 0) == (Headers::Complete {
                lines,
                body_start: bytes.len() - length,
            })
            &&& content_length(lines.drop_first()) == length
            &&& bytes.subrange(bytes.len() - length, bytes.len() as int) == encode_utf8(body)
        }),
{
    reveal_strlit("HTTP/1.0 200 OK");
    reveal_strlit("text/html");
    reveal_strlit("\r\n");
    reveal_strlit("Content-Type: ");
    reveal_strlit("HTTP/1.0 200 OK\r\n");
    reveal_strlit("Content-Type: text/html\r\n");
    assert(STATUS_OK@ == "HTTP/1.0 200 OK"@);
    assert(HTML_TYPE@ == "text/html"@);
    lemma_output_reads_back(STATUS_OK@, HTML_TYPE@, body, ended);
    assert(STATUS_OK@ + "\r\n"@ == "HTTP/1.0 200 OK\r\n"@);
    assert("Content-Type: "@ + HTML_TYPE@ + "\r\n"@ == "Content-Type: text/html\r\n"@);
}

} // verus!
