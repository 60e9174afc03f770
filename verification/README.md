# LiteMusicDL

The logic of a desktop music player and download manager, written in Verus: what
each music source is asked for, what is read from its replies, which stream is
taken, what is answered to the player, how files of a local collection are told
apart, and how tags are read and written.

- `src/text.rs`, `src/json.rs`, `src/headers.rs`, `src/request.rs`,
  `src/order.rs`, `src/shelf.rs`: texts, documents, HTTP values, stable sorting,
  and things kept under names.
- `src/domain.rs`, `src/media.rs`: tracks, and the types of files and streams.
- `src/sources/`: QQ Music, Kuwo, NetEase and Migu.
- `src/catalog.rs`, `src/playback.rs`, `src/download.rs`, `src/local.rs`,
  `src/tags.rs`, `src/artwork.rs`, `src/history.rs`: what the commands of the player decide.
- `app/`: the window, the network and the disk. It sends the requests that the
  library hands out and hands back the replies.
- `tests/`: the library at work on concrete values.

Where a decision needs several replies, the library is a state machine: a
function from the last reply to the next action, with the law of what the whole
search finds beside it.
