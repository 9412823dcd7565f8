# prompt_encoding

Prompts for conversations with language models of the V4 family, verified with
Verus.

A conversation is brought into a normal form, rendered into segments, and put
together as a prompt or encoded into token ids. Each segment is either template
(control tokens and other markup, in which the tokenizer recognizes its added
tokens) or content (what a message says, the names and arguments of tool calls
included, encoded as plain text, in which it recognizes none).

| Module | What it holds |
| --- | --- |
| `conversation` | messages, tools and settings, each with a model over character sequences |
| `json` | JSON values of `serde_json`: what is relied on of that crate |
| `prompt` | what a prompt encoding offers |
| `text` | building strings out of pieces |
| `tokenizer` | what encodes text into token ids: the `tokenizers` crate, or something else |
| `parts`, `patterns` | the parts of a tokenizer of that crate, and with which of them it can encode every text |
| `v4` | control tokens, and what an encoding of the family has to provide |
| `v4::version` | an encoding that is given by its markup |
| `v4::normalize`, `v4::tool_order` | the normal form of messages |
| `v4::tools` | tools and tool calls as text |
| `v4::tool_segments` | tool calls as segments |
| `v4::render`, `v4::encode` | segments; prompts and token ids out of them |
| `v4::order_laws`, `v4::normal_laws`, `v4::content_laws`, `v4::prompt_laws` | what holds of all conversations, proved |

How a JSON value is written is left to the caller, who hands in a function for
it. `app/` has the one that writes as Python does, and warns about tool calls
whose arguments are no JSON object.

The `tokenizers` crate is built with the `fancy-regex` engine: a search that fails
there ends, while the one that is built by default panics.
