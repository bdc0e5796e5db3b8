# vmod_fileserver

A Varnish module that serves files from a directory, with its decision logic
verified by Verus.

`src/` is the verified library:

- `text`, `encoding`: strings as character sequences, UTF-8
- `path`, `path_laws`: request URLs, percent-decoding, clamping, redirects
- `escape`: escaping for URLs and for HTML
- `size`, `time`, `etag`: sizes, dates and entity tags
- `mime`: the table of media types
- `listing`, `order`, `negotiation`, `html`: directory listings
- `backend`: the configuration
- `walk`: how a request is led to a file, one segment at a time
- `transfer`, `reply`: bodies and responses
- `fetch`, `fetch_laws`: how a request is answered, step by step

Each step of an answer is either the response or asks for something that the
file system has to tell. `app/` does what the steps ask for, and connects them
to Varnish.

What the proofs rest on: the functions marked `external_body`, which call
`chrono` and `std`, and the specifications of `std` functions.
