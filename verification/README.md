# DingTalk channel

A conversation access layer for DingTalk robots, verified with Verus.

`src/` is the library. It decides what happens to a message on its way in, what
an answer looks like on its way out, and how a card fills while the robot
writes. It opens no connection and touches no file: what came in is handed to
it, and it hands back what is to be sent, waited for or called. Every function
says in its contract what it returns or changes, but for two that only read the
machine's clock, `Clock::start` and `time::now_millis`: of their results nothing
is stated.

| Part | What it decides |
| --- | --- |
| `normalize`, `document` | the normal form of inbound messages, and how it is written down |
| `safety`, `pipeline` | whether a message is handled: age, duplicates, policy, locks, batches, addresses of files |
| `http_mode` | whether a callback over HTTP is signed |
| `frame`, `stream` | the frames of the connection, signs of life, opening it again |
| `reply`, `send`, `outbound` | the way of an answer, its pieces, its markdown, attempts |
| `card`, `streamer` | requests for cards, frames and their throttle, the end of a card |
| `ratelimit`, `token`, `oapi`, `bot_identity`, `emotion` | requests to the service and what its answers are taken as |
| `channel`, `config`, `lifecycle`, `types`, `error` | what holds them together |
| `json`, `record`, `keyed`, `text`, `time`, `url`, `chance` | what they are made of |

What holds of several calls together stands as public proof functions behind the
functions that it speaks of: a second delivery is a duplicate, a message that
waits is handed out once and in order, no more tokens are given than came, a
card that is lost falls back to a text.

What outside crates do is claimed in few places, each with a comment that names
the function: `json` (serde_json), `safety::recent` (lru), `safety::seen_cache`
(sha2), `http_mode` (hmac, base64), `url` (urlencoding), `chance` (rand), and
for the standard library `time`, `types`, `error` and `text`.

Documents are read as a whole with `serde_json`, as a `serde_json::Value`, and
then field by field. So where an object repeats a name, its last value counts; a
document in which any field cannot be read, such as a number out of range, is
refused, even where nobody asks for that field; and a field of another type than
expected is told in the library's own words.

`tests/` runs the library from outside. `app/` is the channel itself: sockets,
requests, timers and tasks around the library, with nothing verified in it.
