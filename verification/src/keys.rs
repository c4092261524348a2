//! The names of members and kinds differ from one another.

use vstd::prelude::*;

verus! {

proof fn lemma_keys_of_2()
    ensures
        "id"@.len() == 2,
{
    reveal_strlit("id");
}

proof fn lemma_keys_of_3()
    ensures
        "uri"@.len() == 3,
{
    reveal_strlit("uri");
}

proof fn lemma_keys_of_4()
    ensures
        "type"@.len() == 4,
        "role"@.len() == 4,
        "text"@.len() == 4,
        "name"@.len() == 4,
        "seed"@.len() == 4,
        "data"@.len() == 4,
        "tool"@.len() == 4,
        "user"@.len() == 4,
        "item"@.len() == 4,
        "code"@.len() == 4,
        "type"@ != "role"@,
        "type"@ != "text"@,
        "type"@ != "name"@,
        "type"@ != "seed"@,
        "type"@ != "data"@,
        "type"@ != "tool"@,
        "type"@ != "user"@,
        "type"@ != "item"@,
        "type"@ != "code"@,
        "role"@ != "text"@,
        "role"@ != "name"@,
        "role"@ != "seed"@,
        "role"@ != "data"@,
        "role"@ != "tool"@,
        "role"@ != "user"@,
        "role"@ != "item"@,
        "role"@ != "code"@,
        "text"@ != "name"@,
        "text"@ != "seed"@,
        "text"@ != "data"@,
        "text"@ != "tool"@,
        "text"@ != "user"@,
        "text"@ != "item"@,
        "text"@ != "code"@,
        "name"@ != "seed"@,
        "name"@ != "data"@,
        "name"@ != "tool"@,
        "name"@ != "user"@,
        "name"@ != "item"@,
        "name"@ != "code"@,
        "seed"@ != "data"@,
        "seed"@ != "tool"@,
        "seed"@ != "user"@,
        "seed"@ != "item"@,
        "seed"@ != "code"@,
        "data"@ != "tool"@,
        "data"@ != "user"@,
        "data"@ != "item"@,
        "data"@ != "code"@,
        "tool"@ != "user"@,
        "tool"@ != "item"@,
        "tool"@ != "code"@,
        "user"@ != "item"@,
        "user"@ != "code"@,
        "item"@ != "code"@,
{
    reveal_strlit("type");
    reveal_strlit("role");
    reveal_strlit("text");
    reveal_strlit("name");
    reveal_strlit("seed");
    reveal_strlit("data");
    reveal_strlit("tool");
    reveal_strlit("user");
    reveal_strlit("item");
    reveal_strlit("code");
    assert("type"@[0] != "role"@[0]);
    assert("type"@[1] != "text"@[1]);
    assert("type"@[0] != "name"@[0]);
    assert("type"@[0] != "seed"@[0]);
    assert("type"@[0] != "data"@[0]);
    assert("type"@[1] != "tool"@[1]);
    assert("type"@[0] != "user"@[0]);
    assert("type"@[0] != "item"@[0]);
    assert("type"@[0] != "code"@[0]);
    assert("role"@[0] != "text"@[0]);
    assert("role"@[0] != "name"@[0]);
    assert("role"@[0] != "seed"@[0]);
    assert("role"@[0] != "data"@[0]);
    assert("role"@[0] != "tool"@[0]);
    assert("role"@[0] != "user"@[0]);
    assert("role"@[0] != "item"@[0]);
    assert("role"@[0] != "code"@[0]);
    assert("text"@[0] != "name"@[0]);
    assert("text"@[0] != "seed"@[0]);
    assert("text"@[0] != "data"@[0]);
    assert("text"@[1] != "tool"@[1]);
    assert("text"@[0] != "user"@[0]);
    assert("text"@[0] != "item"@[0]);
    assert("text"@[0] != "code"@[0]);
    assert("name"@[0] != "seed"@[0]);
    assert("name"@[0] != "data"@[0]);
    assert("name"@[0] != "tool"@[0]);
    assert("name"@[0] != "user"@[0]);
    assert("name"@[0] != "item"@[0]);
    assert("name"@[0] != "code"@[0]);
    assert("seed"@[0] != "data"@[0]);
    assert("seed"@[0] != "tool"@[0]);
    assert("seed"@[0] != "user"@[0]);
    assert("seed"@[0] != "item"@[0]);
    assert("seed"@[0] != "code"@[0]);
    assert("data"@[0] != "tool"@[0]);
    assert("data"@[0] != "user"@[0]);
    assert("data"@[0] != "item"@[0]);
    assert("data"@[0] != "code"@[0]);
    assert("tool"@[0] != "user"@[0]);
    assert("tool"@[0] != "item"@[0]);
    assert("tool"@[0] != "code"@[0]);
    assert("user"@[0] != "item"@[0]);
    assert("user"@[0] != "code"@[0]);
    assert("item"@[0] != "code"@[0]);
}

proof fn lemma_keys_of_5()
    ensures
        "index"@.len() == 5,
        "model"@.len() == 5,
        "top_p"@.len() == 5,
        "input"@.len() == 5,
        "tools"@.len() == 5,
        "image"@.len() == 5,
        "usage"@.len() == 5,
        "delta"@.len() == 5,
        "error"@.len() == 5,
        "items"@.len() == 5,
        "index"@ != "model"@,
        "index"@ != "top_p"@,
        "index"@ != "input"@,
        "index"@ != "tools"@,
        "index"@ != "image"@,
        "index"@ != "usage"@,
        "index"@ != "delta"@,
        "index"@ != "error"@,
        "index"@ != "items"@,
        "model"@ != "top_p"@,
        "model"@ != "input"@,
        "model"@ != "tools"@,
        "model"@ != "image"@,
        "model"@ != "usage"@,
        "model"@ != "delta"@,
        "model"@ != "error"@,
        "model"@ != "items"@,
        "top_p"@ != "input"@,
        "top_p"@ != "tools"@,
        "top_p"@ != "image"@,
        "top_p"@ != "usage"@,
        "top_p"@ != "delta"@,
        "top_p"@ != "error"@,
        "top_p"@ != "items"@,
        "input"@ != "tools"@,
        "input"@ != "image"@,
        "input"@ != "usage"@,
        "input"@ != "delta"@,
        "input"@ != "error"@,
        "input"@ != "items"@,
        "tools"@ != "image"@,
        "tools"@ != "usage"@,
        "tools"@ != "delta"@,
        "tools"@ != "error"@,
        "tools"@ != "items"@,
        "image"@ != "usage"@,
        "image"@ != "delta"@,
        "image"@ != "error"@,
        "image"@ != "items"@,
        "usage"@ != "delta"@,
        "usage"@ != "error"@,
        "usage"@ != "items"@,
        "delta"@ != "error"@,
        "delta"@ != "items"@,
        "error"@ != "items"@,
{
    reveal_strlit("index");
    reveal_strlit("model");
    reveal_strlit("top_p");
    reveal_strlit("input");
    reveal_strlit("tools");
    reveal_strlit("image");
    reveal_strlit("usage");
    reveal_strlit("delta");
    reveal_strlit("error");
    reveal_strlit("items");
    assert("index"@[0] != "model"@[0]);
    assert("index"@[0] != "top_p"@[0]);
    assert("index"@[2] != "input"@[2]);
    assert("index"@[0] != "tools"@[0]);
    assert("index"@[1] != "image"@[1]);
    assert("index"@[0] != "usage"@[0]);
    assert("index"@[0] != "delta"@[0]);
    assert("index"@[0] != "error"@[0]);
    assert("index"@[1] != "items"@[1]);
    assert("model"@[0] != "top_p"@[0]);
    assert("model"@[0] != "input"@[0]);
    assert("model"@[0] != "tools"@[0]);
    assert("model"@[0] != "image"@[0]);
    assert("model"@[0] != "usage"@[0]);
    assert("model"@[0] != "delta"@[0]);
    assert("model"@[0] != "error"@[0]);
    assert("model"@[0] != "items"@[0]);
    assert("top_p"@[0] != "input"@[0]);
    assert("top_p"@[2] != "tools"@[2]);
    assert("top_p"@[0] != "image"@[0]);
    assert("top_p"@[0] != "usage"@[0]);
    assert("top_p"@[0] != "delta"@[0]);
    assert("top_p"@[0] != "error"@[0]);
    assert("top_p"@[0] != "items"@[0]);
    assert("input"@[0] != "tools"@[0]);
    assert("input"@[1] != "image"@[1]);
    assert("input"@[0] != "usage"@[0]);
    assert("input"@[0] != "delta"@[0]);
    assert("input"@[0] != "error"@[0]);
    assert("input"@[1] != "items"@[1]);
    assert("tools"@[0] != "image"@[0]);
    assert("tools"@[0] != "usage"@[0]);
    assert("tools"@[0] != "delta"@[0]);
    assert("tools"@[0] != "error"@[0]);
    assert("tools"@[0] != "items"@[0]);
    assert("image"@[0] != "usage"@[0]);
    assert("image"@[0] != "delta"@[0]);
    assert("image"@[0] != "error"@[0]);
    assert("image"@[1] != "items"@[1]);
    assert("usage"@[0] != "delta"@[0]);
    assert("usage"@[0] != "error"@[0]);
    assert("usage"@[0] != "items"@[0]);
    assert("delta"@[0] != "error"@[0]);
    assert("delta"@[0] != "items"@[0]);
    assert("error"@[0] != "items"@[0]);
}

proof fn lemma_keys_of_6()
    ensures
        "stream"@.len() == 6,
        "effort"@.len() == 6,
        "format"@.len() == 6,
        "schema"@.len() == 6,
        "output"@.len() == 6,
        "result"@.len() == 6,
        "source"@.len() == 6,
        "system"@.len() == 6,
        "status"@.len() == 6,
        "object"@.len() == 6,
        "stream"@ != "effort"@,
        "stream"@ != "format"@,
        "stream"@ != "schema"@,
        "stream"@ != "output"@,
        "stream"@ != "result"@,
        "stream"@ != "source"@,
        "stream"@ != "system"@,
        "stream"@ != "status"@,
        "stream"@ != "object"@,
        "effort"@ != "format"@,
        "effort"@ != "schema"@,
        "effort"@ != "output"@,
        "effort"@ != "result"@,
        "effort"@ != "source"@,
        "effort"@ != "system"@,
        "effort"@ != "status"@,
        "effort"@ != "object"@,
        "format"@ != "schema"@,
        "format"@ != "output"@,
        "format"@ != "result"@,
        "format"@ != "source"@,
        "format"@ != "system"@,
        "format"@ != "status"@,
        "format"@ != "object"@,
        "schema"@ != "output"@,
        "schema"@ != "result"@,
        "schema"@ != "source"@,
        "schema"@ != "system"@,
        "schema"@ != "status"@,
        "schema"@ != "object"@,
        "output"@ != "result"@,
        "output"@ != "source"@,
        "output"@ != "system"@,
        "output"@ != "status"@,
        "output"@ != "object"@,
        "result"@ != "source"@,
        "result"@ != "system"@,
        "result"@ != "status"@,
        "result"@ != "object"@,
        "source"@ != "system"@,
        "source"@ != "status"@,
        "source"@ != "object"@,
        "system"@ != "status"@,
        "system"@ != "object"@,
        "status"@ != "object"@,
{
    reveal_strlit("stream");
    reveal_strlit("effort");
    reveal_strlit("format");
    reveal_strlit("schema");
    reveal_strlit("output");
    reveal_strlit("result");
    reveal_strlit("source");
    reveal_strlit("system");
    reveal_strlit("status");
    reveal_strlit("object");
    assert("stream"@[0] != "effort"@[0]);
    assert("stream"@[0] != "format"@[0]);
    assert("stream"@[1] != "schema"@[1]);
    assert("stream"@[0] != "output"@[0]);
    assert("stream"@[0] != "result"@[0]);
    assert("stream"@[1] != "source"@[1]);
    assert("stream"@[1] != "system"@[1]);
    assert("stream"@[2] != "status"@[2]);
    assert("stream"@[0] != "object"@[0]);
    assert("effort"@[0] != "format"@[0]);
    assert("effort"@[0] != "schema"@[0]);
    assert("effort"@[0] != "output"@[0]);
    assert("effort"@[0] != "result"@[0]);
    assert("effort"@[0] != "source"@[0]);
    assert("effort"@[0] != "system"@[0]);
    assert("effort"@[0] != "status"@[0]);
    assert("effort"@[0] != "object"@[0]);
    assert("format"@[0] != "schema"@[0]);
    assert("format"@[0] != "output"@[0]);
    assert("format"@[0] != "result"@[0]);
    assert("format"@[0] != "source"@[0]);
    assert("format"@[0] != "system"@[0]);
    assert("format"@[0] != "status"@[0]);
    assert("format"@[0] != "object"@[0]);
    assert("schema"@[0] != "output"@[0]);
    assert("schema"@[0] != "result"@[0]);
    assert("schema"@[1] != "source"@[1]);
    assert("schema"@[1] != "system"@[1]);
    assert("schema"@[1] != "status"@[1]);
    assert("schema"@[0] != "object"@[0]);
    assert("output"@[0] != "result"@[0]);
    assert("output"@[0] != "source"@[0]);
    assert("output"@[0] != "system"@[0]);
    assert("output"@[0] != "status"@[0]);
    assert("output"@[1] != "object"@[1]);
    assert("result"@[0] != "source"@[0]);
    assert("result"@[0] != "system"@[0]);
    assert("result"@[0] != "status"@[0]);
    assert("result"@[0] != "object"@[0]);
    assert("source"@[1] != "system"@[1]);
    assert("source"@[1] != "status"@[1]);
    assert("source"@[0] != "object"@[0]);
    assert("system"@[1] != "status"@[1]);
    assert("system"@[0] != "object"@[0]);
    assert("status"@[0] != "object"@[0]);
}

proof fn lemma_keys_of_7()
    ensures
        "content"@.len() == 7,
        "message"@.len() == 7,
        "call_id"@.len() == 7,
        "created"@.len() == 7,
        "choices"@.len() == 7,
        "item_id"@.len() == 7,
        "summary"@.len() == 7,
        "file_id"@.len() == 7,
        "command"@.len() == 7,
        "content"@ != "message"@,
        "content"@ != "call_id"@,
        "content"@ != "created"@,
        "content"@ != "choices"@,
        "content"@ != "item_id"@,
        "content"@ != "summary"@,
        "content"@ != "file_id"@,
        "content"@ != "command"@,
        "message"@ != "call_id"@,
        "message"@ != "created"@,
        "message"@ != "choices"@,
        "message"@ != "item_id"@,
        "message"@ != "summary"@,
        "message"@ != "file_id"@,
        "message"@ != "command"@,
        "call_id"@ != "created"@,
        "call_id"@ != "choices"@,
        "call_id"@ != "item_id"@,
        "call_id"@ != "summary"@,
        "call_id"@ != "file_id"@,
        "call_id"@ != "command"@,
        "created"@ != "choices"@,
        "created"@ != "item_id"@,
        "created"@ != "summary"@,
        "created"@ != "file_id"@,
        "created"@ != "command"@,
        "choices"@ != "item_id"@,
        "choices"@ != "summary"@,
        "choices"@ != "file_id"@,
        "choices"@ != "command"@,
        "item_id"@ != "summary"@,
        "item_id"@ != "file_id"@,
        "item_id"@ != "command"@,
        "summary"@ != "file_id"@,
        "summary"@ != "command"@,
        "file_id"@ != "command"@,
{
    reveal_strlit("content");
    reveal_strlit("message");
    reveal_strlit("call_id");
    reveal_strlit("created");
    reveal_strlit("choices");
    reveal_strlit("item_id");
    reveal_strlit("summary");
    reveal_strlit("file_id");
    reveal_strlit("command");
    assert("content"@[0] != "message"@[0]);
    assert("content"@[1] != "call_id"@[1]);
    assert("content"@[1] != "created"@[1]);
    assert("content"@[1] != "choices"@[1]);
    assert("content"@[0] != "item_id"@[0]);
    assert("content"@[0] != "summary"@[0]);
    assert("content"@[0] != "file_id"@[0]);
    assert("content"@[2] != "command"@[2]);
    assert("message"@[0] != "call_id"@[0]);
    assert("message"@[0] != "created"@[0]);
    assert("message"@[0] != "choices"@[0]);
    assert("message"@[0] != "item_id"@[0]);
    assert("message"@[0] != "summary"@[0]);
    assert("message"@[0] != "file_id"@[0]);
    assert("message"@[0] != "command"@[0]);
    assert("call_id"@[1] != "created"@[1]);
    assert("call_id"@[1] != "choices"@[1]);
    assert("call_id"@[0] != "item_id"@[0]);
    assert("call_id"@[0] != "summary"@[0]);
    assert("call_id"@[0] != "file_id"@[0]);
    assert("call_id"@[1] != "command"@[1]);
    assert("created"@[1] != "choices"@[1]);
    assert("created"@[0] != "item_id"@[0]);
    assert("created"@[0] != "summary"@[0]);
    assert("created"@[0] != "file_id"@[0]);
    assert("created"@[1] != "command"@[1]);
    assert("choices"@[0] != "item_id"@[0]);
    assert("choices"@[0] != "summary"@[0]);
    assert("choices"@[0] != "file_id"@[0]);
    assert("choices"@[1] != "command"@[1]);
    assert("item_id"@[0] != "summary"@[0]);
    assert("item_id"@[0] != "file_id"@[0]);
    assert("item_id"@[0] != "command"@[0]);
    assert("summary"@[0] != "file_id"@[0]);
    assert("summary"@[0] != "command"@[0]);
    assert("file_id"@[0] != "command"@[0]);
}

proof fn lemma_keys_of_8()
    ensures
        "function"@.len() == 8,
        "messages"@.len() == 8,
        "tool_use"@.len() == 8,
        "response"@.len() == 8,
        "agent_id"@.len() == 8,
        "function"@ != "messages"@,
        "function"@ != "tool_use"@,
        "function"@ != "response"@,
        "function"@ != "agent_id"@,
        "messages"@ != "tool_use"@,
        "messages"@ != "response"@,
        "messages"@ != "agent_id"@,
        "tool_use"@ != "response"@,
        "tool_use"@ != "agent_id"@,
        "response"@ != "agent_id"@,
{
    reveal_strlit("function");
    reveal_strlit("messages");
    reveal_strlit("tool_use");
    reveal_strlit("response");
    reveal_strlit("agent_id");
    assert("function"@[0] != "messages"@[0]);
    assert("function"@[0] != "tool_use"@[0]);
    assert("function"@[0] != "response"@[0]);
    assert("function"@[0] != "agent_id"@[0]);
    assert("messages"@[0] != "tool_use"@[0]);
    assert("messages"@[0] != "response"@[0]);
    assert("messages"@[0] != "agent_id"@[0]);
    assert("tool_use"@[0] != "response"@[0]);
    assert("tool_use"@[0] != "agent_id"@[0]);
    assert("response"@[0] != "agent_id"@[0]);
}

proof fn lemma_keys_of_9()
    ensures
        "arguments"@.len() == 9,
        "reasoning"@.len() == 9,
        "functions"@.len() == 9,
        "image_url"@.len() == 9,
        "assistant"@.len() == 9,
        "developer"@.len() == 9,
        "file_data"@.len() == 9,
        "BatchTool"@.len() == 9,
        "agent_ids"@.len() == 9,
        "arguments"@ != "reasoning"@,
        "arguments"@ != "functions"@,
        "arguments"@ != "image_url"@,
        "arguments"@ != "assistant"@,
        "arguments"@ != "developer"@,
        "arguments"@ != "file_data"@,
        "arguments"@ != "BatchTool"@,
        "arguments"@ != "agent_ids"@,
        "reasoning"@ != "functions"@,
        "reasoning"@ != "image_url"@,
        "reasoning"@ != "assistant"@,
        "reasoning"@ != "developer"@,
        "reasoning"@ != "file_data"@,
        "reasoning"@ != "BatchTool"@,
        "reasoning"@ != "agent_ids"@,
        "functions"@ != "image_url"@,
        "functions"@ != "assistant"@,
        "functions"@ != "developer"@,
        "functions"@ != "file_data"@,
        "functions"@ != "BatchTool"@,
        "functions"@ != "agent_ids"@,
        "image_url"@ != "assistant"@,
        "image_url"@ != "developer"@,
        "image_url"@ != "file_data"@,
        "image_url"@ != "BatchTool"@,
        "image_url"@ != "agent_ids"@,
        "assistant"@ != "developer"@,
        "assistant"@ != "file_data"@,
        "assistant"@ != "BatchTool"@,
        "assistant"@ != "agent_ids"@,
        "developer"@ != "file_data"@,
        "developer"@ != "BatchTool"@,
        "developer"@ != "agent_ids"@,
        "file_data"@ != "BatchTool"@,
        "file_data"@ != "agent_ids"@,
        "BatchTool"@ != "agent_ids"@,
{
    reveal_strlit("arguments");
    reveal_strlit("reasoning");
    reveal_strlit("functions");
    reveal_strlit("image_url");
    reveal_strlit("assistant");
    reveal_strlit("developer");
    reveal_strlit("file_data");
    reveal_strlit("BatchTool");
    reveal_strlit("agent_ids");
    assert("arguments"@[0] != "reasoning"@[0]);
    assert("arguments"@[0] != "functions"@[0]);
    assert("arguments"@[0] != "image_url"@[0]);
    assert("arguments"@[1] != "assistant"@[1]);
    assert("arguments"@[0] != "developer"@[0]);
    assert("arguments"@[0] != "file_data"@[0]);
    assert("arguments"@[0] != "BatchTool"@[0]);
    assert("arguments"@[1] != "agent_ids"@[1]);
    assert("reasoning"@[0] != "functions"@[0]);
    assert("reasoning"@[0] != "image_url"@[0]);
    assert("reasoning"@[0] != "assistant"@[0]);
    assert("reasoning"@[0] != "developer"@[0]);
    assert("reasoning"@[0] != "file_data"@[0]);
    assert("reasoning"@[0] != "BatchTool"@[0]);
    assert("reasoning"@[0] != "agent_ids"@[0]);
    assert("functions"@[0] != "image_url"@[0]);
    assert("functions"@[0] != "assistant"@[0]);
    assert("functions"@[0] != "developer"@[0]);
    assert("functions"@[1] != "file_data"@[1]);
    assert("functions"@[0] != "BatchTool"@[0]);
    assert("functions"@[0] != "agent_ids"@[0]);
    assert("image_url"@[0] != "assistant"@[0]);
    assert("image_url"@[0] != "developer"@[0]);
    assert("image_url"@[0] != "file_data"@[0]);
    assert("image_url"@[0] != "BatchTool"@[0]);
    assert("image_url"@[0] != "agent_ids"@[0]);
    assert("assistant"@[0] != "developer"@[0]);
    assert("assistant"@[0] != "file_data"@[0]);
    assert("assistant"@[0] != "BatchTool"@[0]);
    assert("assistant"@[1] != "agent_ids"@[1]);
    assert("developer"@[0] != "file_data"@[0]);
    assert("developer"@[0] != "BatchTool"@[0]);
    assert("developer"@[0] != "agent_ids"@[0]);
    assert("file_data"@[0] != "BatchTool"@[0]);
    assert("file_data"@[0] != "agent_ids"@[0]);
    assert("BatchTool"@[0] != "agent_ids"@[0]);
}

proof fn lemma_keys_of_10()
    ensures
        "max_tokens"@.len() == 10,
        "parameters"@.len() == 10,
        "tool_calls"@.len() == 10,
        "media_type"@.len() == 10,
        "input_text"@.len() == 10,
        "input_file"@.len() == 10,
        "properties"@.len() == 10,
        "max_tokens"@ != "parameters"@,
        "max_tokens"@ != "tool_calls"@,
        "max_tokens"@ != "media_type"@,
        "max_tokens"@ != "input_text"@,
        "max_tokens"@ != "input_file"@,
        "max_tokens"@ != "properties"@,
        "parameters"@ != "tool_calls"@,
        "parameters"@ != "media_type"@,
        "parameters"@ != "input_text"@,
        "parameters"@ != "input_file"@,
        "parameters"@ != "properties"@,
        "tool_calls"@ != "media_type"@,
        "tool_calls"@ != "input_text"@,
        "tool_calls"@ != "input_file"@,
        "tool_calls"@ != "properties"@,
        "media_type"@ != "input_text"@,
        "media_type"@ != "input_file"@,
        "media_type"@ != "properties"@,
        "input_text"@ != "input_file"@,
        "input_text"@ != "properties"@,
        "input_file"@ != "properties"@,
{
    reveal_strlit("max_tokens");
    reveal_strlit("parameters");
    reveal_strlit("tool_calls");
    reveal_strlit("media_type");
    reveal_strlit("input_text");
    reveal_strlit("input_file");
    reveal_strlit("properties");
    assert("max_tokens"@[0] != "parameters"@[0]);
    assert("max_tokens"@[0] != "tool_calls"@[0]);
    assert("max_tokens"@[1] != "media_type"@[1]);
    assert("max_tokens"@[0] != "input_text"@[0]);
    assert("max_tokens"@[0] != "input_file"@[0]);
    assert("max_tokens"@[0] != "properties"@[0]);
    assert("parameters"@[0] != "tool_calls"@[0]);
    assert("parameters"@[0] != "media_type"@[0]);
    assert("parameters"@[0] != "input_text"@[0]);
    assert("parameters"@[0] != "input_file"@[0]);
    assert("parameters"@[1] != "properties"@[1]);
    assert("tool_calls"@[0] != "media_type"@[0]);
    assert("tool_calls"@[0] != "input_text"@[0]);
    assert("tool_calls"@[0] != "input_file"@[0]);
    assert("tool_calls"@[0] != "properties"@[0]);
    assert("media_type"@[0] != "input_text"@[0]);
    assert("media_type"@[0] != "input_file"@[0]);
    assert("media_type"@[0] != "properties"@[0]);
    assert("input_text"@[6] != "input_file"@[6]);
    assert("input_text"@[0] != "properties"@[0]);
    assert("input_file"@[0] != "properties"@[0]);
}

proof fn lemma_keys_of_11()
    ensures
        "temperature"@.len() == 11,
        "tool_choice"@.len() == 11,
        "json_schema"@.len() == 11,
        "json_object"@.len() == 11,
        "description"@.len() == 11,
        "tool_use_id"@.len() == 11,
        "tool_result"@.len() == 11,
        "input_image"@.len() == 11,
        "output_text"@.len() == 11,
        "temperature"@ != "tool_choice"@,
        "temperature"@ != "json_schema"@,
        "temperature"@ != "json_object"@,
        "temperature"@ != "description"@,
        "temperature"@ != "tool_use_id"@,
        "temperature"@ != "tool_result"@,
        "temperature"@ != "input_image"@,
        "temperature"@ != "output_text"@,
        "tool_choice"@ != "json_schema"@,
        "tool_choice"@ != "json_object"@,
        "tool_choice"@ != "description"@,
        "tool_choice"@ != "tool_use_id"@,
        "tool_choice"@ != "tool_result"@,
        "tool_choice"@ != "input_image"@,
        "tool_choice"@ != "output_text"@,
        "json_schema"@ != "json_object"@,
        "json_schema"@ != "description"@,
        "json_schema"@ != "tool_use_id"@,
        "json_schema"@ != "tool_result"@,
        "json_schema"@ != "input_image"@,
        "json_schema"@ != "output_text"@,
        "json_object"@ != "description"@,
        "json_object"@ != "tool_use_id"@,
        "json_object"@ != "tool_result"@,
        "json_object"@ != "input_image"@,
        "json_object"@ != "output_text"@,
        "description"@ != "tool_use_id"@,
        "description"@ != "tool_result"@,
        "description"@ != "input_image"@,
        "description"@ != "output_text"@,
        "tool_use_id"@ != "tool_result"@,
        "tool_use_id"@ != "input_image"@,
        "tool_use_id"@ != "output_text"@,
        "tool_result"@ != "input_image"@,
        "tool_result"@ != "output_text"@,
        "input_image"@ != "output_text"@,
{
    reveal_strlit("temperature");
    reveal_strlit("tool_choice");
    reveal_strlit("json_schema");
    reveal_strlit("json_object");
    reveal_strlit("description");
    reveal_strlit("tool_use_id");
    reveal_strlit("tool_result");
    reveal_strlit("input_image");
    reveal_strlit("output_text");
    assert("temperature"@[1] != "tool_choice"@[1]);
    assert("temperature"@[0] != "json_schema"@[0]);
    assert("temperature"@[0] != "json_object"@[0]);
    assert("temperature"@[0] != "description"@[0]);
    assert("temperature"@[1] != "tool_use_id"@[1]);
    assert("temperature"@[1] != "tool_result"@[1]);
    assert("temperature"@[0] != "input_image"@[0]);
    assert("temperature"@[0] != "output_text"@[0]);
    assert("tool_choice"@[0] != "json_schema"@[0]);
    assert("tool_choice"@[0] != "json_object"@[0]);
    assert("tool_choice"@[0] != "description"@[0]);
    assert("tool_choice"@[5] != "tool_use_id"@[5]);
    assert("tool_choice"@[5] != "tool_result"@[5]);
    assert("tool_choice"@[0] != "input_image"@[0]);
    assert("tool_choice"@[0] != "output_text"@[0]);
    assert("json_schema"@[5] != "json_object"@[5]);
    assert("json_schema"@[0] != "description"@[0]);
    assert("json_schema"@[0] != "tool_use_id"@[0]);
    assert("json_schema"@[0] != "tool_result"@[0]);
    assert("json_schema"@[0] != "input_image"@[0]);
    assert("json_schema"@[0] != "output_text"@[0]);
    assert("json_object"@[0] != "description"@[0]);
    assert("json_object"@[0] != "tool_use_id"@[0]);
    assert("json_object"@[0] != "tool_result"@[0]);
    assert("json_object"@[0] != "input_image"@[0]);
    assert("json_object"@[0] != "output_text"@[0]);
    assert("description"@[0] != "tool_use_id"@[0]);
    assert("description"@[0] != "tool_result"@[0]);
    assert("description"@[0] != "input_image"@[0]);
    assert("description"@[0] != "output_text"@[0]);
    assert("tool_use_id"@[5] != "tool_result"@[5]);
    assert("tool_use_id"@[0] != "input_image"@[0]);
    assert("tool_use_id"@[0] != "output_text"@[0]);
    assert("tool_result"@[0] != "input_image"@[0]);
    assert("tool_result"@[0] != "output_text"@[0]);
    assert("input_image"@[0] != "output_text"@[0]);
}

proof fn lemma_keys_of_12()
    ensures
        "instructions"@.len() == 12,
        "input_schema"@.len() == 12,
        "tool_call_id"@.len() == 12,
        "summary_text"@.len() == 12,
        "total_tokens"@.len() == 12,
        "input_tokens"@.len() == 12,
        "output_index"@.len() == 12,
        "instructions"@ != "input_schema"@,
        "instructions"@ != "tool_call_id"@,
        "instructions"@ != "summary_text"@,
        "instructions"@ != "total_tokens"@,
        "instructions"@ != "input_tokens"@,
        "instructions"@ != "output_index"@,
        "input_schema"@ != "tool_call_id"@,
        "input_schema"@ != "summary_text"@,
        "input_schema"@ != "total_tokens"@,
        "input_schema"@ != "input_tokens"@,
        "input_schema"@ != "output_index"@,
        "tool_call_id"@ != "summary_text"@,
        "tool_call_id"@ != "total_tokens"@,
        "tool_call_id"@ != "input_tokens"@,
        "tool_call_id"@ != "output_index"@,
        "summary_text"@ != "total_tokens"@,
        "summary_text"@ != "input_tokens"@,
        "summary_text"@ != "output_index"@,
        "total_tokens"@ != "input_tokens"@,
        "total_tokens"@ != "output_index"@,
        "input_tokens"@ != "output_index"@,
{
    reveal_strlit("instructions");
    reveal_strlit("input_schema");
    reveal_strlit("tool_call_id");
    reveal_strlit("summary_text");
    reveal_strlit("total_tokens");
    reveal_strlit("input_tokens");
    reveal_strlit("output_index");
    assert("instructions"@[2] != "input_schema"@[2]);
    assert("instructions"@[0] != "tool_call_id"@[0]);
    assert("instructions"@[0] != "summary_text"@[0]);
    assert("instructions"@[0] != "total_tokens"@[0]);
    assert("instructions"@[2] != "input_tokens"@[2]);
    assert("instructions"@[0] != "output_index"@[0]);
    assert("input_schema"@[0] != "tool_call_id"@[0]);
    assert("input_schema"@[0] != "summary_text"@[0]);
    assert("input_schema"@[0] != "total_tokens"@[0]);
    assert("input_schema"@[6] != "input_tokens"@[6]);
    assert("input_schema"@[0] != "output_index"@[0]);
    assert("tool_call_id"@[0] != "summary_text"@[0]);
    assert("tool_call_id"@[2] != "total_tokens"@[2]);
    assert("tool_call_id"@[0] != "input_tokens"@[0]);
    assert("tool_call_id"@[0] != "output_index"@[0]);
    assert("summary_text"@[0] != "total_tokens"@[0]);
    assert("summary_text"@[0] != "input_tokens"@[0]);
    assert("summary_text"@[0] != "output_index"@[0]);
    assert("total_tokens"@[0] != "input_tokens"@[0]);
    assert("total_tokens"@[0] != "output_index"@[0]);
    assert("input_tokens"@[0] != "output_index"@[0]);
}

proof fn lemma_keys_of_13()
    ensures
        "function_call"@.len() == 13,
        "finish_reason"@.len() == 13,
        "prompt_tokens"@.len() == 13,
        "output_tokens"@.len() == 13,
        "cached_tokens"@.len() == 13,
        "summary_index"@.len() == 13,
        "function_call"@ != "finish_reason"@,
        "function_call"@ != "prompt_tokens"@,
        "function_call"@ != "output_tokens"@,
        "function_call"@ != "cached_tokens"@,
        "function_call"@ != "summary_index"@,
        "finish_reason"@ != "prompt_tokens"@,
        "finish_reason"@ != "output_tokens"@,
        "finish_reason"@ != "cached_tokens"@,
        "finish_reason"@ != "summary_index"@,
        "prompt_tokens"@ != "output_tokens"@,
        "prompt_tokens"@ != "cached_tokens"@,
        "prompt_tokens"@ != "summary_index"@,
        "output_tokens"@ != "cached_tokens"@,
        "output_tokens"@ != "summary_index"@,
        "cached_tokens"@ != "summary_index"@,
{
    reveal_strlit("function_call");
    reveal_strlit("finish_reason");
    reveal_strlit("prompt_tokens");
    reveal_strlit("output_tokens");
    reveal_strlit("cached_tokens");
    reveal_strlit("summary_index");
    assert("function_call"@[1] != "finish_reason"@[1]);
    assert("function_call"@[0] != "prompt_tokens"@[0]);
    assert("function_call"@[0] != "output_tokens"@[0]);
    assert("function_call"@[0] != "cached_tokens"@[0]);
    assert("function_call"@[0] != "summary_index"@[0]);
    assert("finish_reason"@[0] != "prompt_tokens"@[0]);
    assert("finish_reason"@[0] != "output_tokens"@[0]);
    assert("finish_reason"@[0] != "cached_tokens"@[0]);
    assert("finish_reason"@[0] != "summary_index"@[0]);
    assert("prompt_tokens"@[0] != "output_tokens"@[0]);
    assert("prompt_tokens"@[0] != "cached_tokens"@[0]);
    assert("prompt_tokens"@[0] != "summary_index"@[0]);
    assert("output_tokens"@[0] != "cached_tokens"@[0]);
    assert("output_tokens"@[0] != "summary_index"@[0]);
    assert("cached_tokens"@[0] != "summary_index"@[0]);
}

proof fn lemma_keys_of_15()
    ensures
        "response_format"@.len() == 15,
{
    reveal_strlit("response_format");
}

proof fn lemma_keys_of_16()
    ensures
        "custom_tool_call"@.len() == 16,
{
    reveal_strlit("custom_tool_call");
}

proof fn lemma_keys_of_17()
    ensures
        "max_output_tokens"@.len() == 17,
        "completion_tokens"@.len() == 17,
        "reasoning_content"@.len() == 17,
        "reasoning_details"@.len() == 17,
        "max_output_tokens"@ != "completion_tokens"@,
        "max_output_tokens"@ != "reasoning_content"@,
        "max_output_tokens"@ != "reasoning_details"@,
        "completion_tokens"@ != "reasoning_content"@,
        "completion_tokens"@ != "reasoning_details"@,
        "reasoning_content"@ != "reasoning_details"@,
{
    reveal_strlit("max_output_tokens");
    reveal_strlit("completion_tokens");
    reveal_strlit("reasoning_content");
    reveal_strlit("reasoning_details");
    assert("max_output_tokens"@[0] != "completion_tokens"@[0]);
    assert("max_output_tokens"@[0] != "reasoning_content"@[0]);
    assert("max_output_tokens"@[0] != "reasoning_details"@[0]);
    assert("completion_tokens"@[0] != "reasoning_content"@[0]);
    assert("completion_tokens"@[0] != "reasoning_details"@[0]);
    assert("reasoning_content"@[10] != "reasoning_details"@[10]);
}

proof fn lemma_keys_of_18()
    ensures
        "system_fingerprint"@.len() == 18,
{
    reveal_strlit("system_fingerprint");
}

proof fn lemma_keys_of_19()
    ensures
        "parallel_tool_calls"@.len() == 19,
{
    reveal_strlit("parallel_tool_calls");
}

proof fn lemma_keys_of_20()
    ensures
        "function_call_output"@.len() == 20,
        "input_tokens_details"@.len() == 20,
        "function_call_output"@ != "input_tokens_details"@,
{
    reveal_strlit("function_call_output");
    reveal_strlit("input_tokens_details");
    assert("function_call_output"@[0] != "input_tokens_details"@[0]);
}

proof fn lemma_keys_of_21()
    ensures
        "prompt_tokens_details"@.len() == 21,
        "output_tokens_details"@.len() == 21,
        "prompt_tokens_details"@ != "output_tokens_details"@,
{
    reveal_strlit("prompt_tokens_details");
    reveal_strlit("output_tokens_details");
    assert("prompt_tokens_details"@[0] != "output_tokens_details"@[0]);
}

proof fn lemma_keys_of_23()
    ensures
        "custom_tool_call_output"@.len() == 23,
{
    reveal_strlit("custom_tool_call_output");
}

/// The names of members and kinds that occur in requests, responses and events differ from one
/// another.
pub proof fn lemma_keys_differ()
    ensures
        "id"@.len() == 2,
        "uri"@.len() == 3,
        "type"@.len() == 4,
        "role"@.len() == 4,
        "text"@.len() == 4,
        "name"@.len() == 4,
        "seed"@.len() == 4,
        "data"@.len() == 4,
        "tool"@.len() == 4,
        "user"@.len() == 4,
        "item"@.len() == 4,
        "code"@.len() == 4,
        "type"@ != "role"@,
        "type"@ != "text"@,
        "type"@ != "name"@,
        "type"@ != "seed"@,
        "type"@ != "data"@,
        "type"@ != "tool"@,
        "type"@ != "user"@,
        "type"@ != "item"@,
        "type"@ != "code"@,
        "role"@ != "text"@,
        "role"@ != "name"@,
        "role"@ != "seed"@,
        "role"@ != "data"@,
        "role"@ != "tool"@,
        "role"@ != "user"@,
        "role"@ != "item"@,
        "role"@ != "code"@,
        "text"@ != "name"@,
        "text"@ != "seed"@,
        "text"@ != "data"@,
        "text"@ != "tool"@,
        "text"@ != "user"@,
        "text"@ != "item"@,
        "text"@ != "code"@,
        "name"@ != "seed"@,
        "name"@ != "data"@,
        "name"@ != "tool"@,
        "name"@ != "user"@,
        "name"@ != "item"@,
        "name"@ != "code"@,
        "seed"@ != "data"@,
        "seed"@ != "tool"@,
        "seed"@ != "user"@,
        "seed"@ != "item"@,
        "seed"@ != "code"@,
        "data"@ != "tool"@,
        "data"@ != "user"@,
        "data"@ != "item"@,
        "data"@ != "code"@,
        "tool"@ != "user"@,
        "tool"@ != "item"@,
        "tool"@ != "code"@,
        "user"@ != "item"@,
        "user"@ != "code"@,
        "item"@ != "code"@,
        "index"@.len() == 5,
        "model"@.len() == 5,
        "top_p"@.len() == 5,
        "input"@.len() == 5,
        "tools"@.len() == 5,
        "image"@.len() == 5,
        "usage"@.len() == 5,
        "delta"@.len() == 5,
        "error"@.len() == 5,
        "items"@.len() == 5,
        "index"@ != "model"@,
        "index"@ != "top_p"@,
        "index"@ != "input"@,
        "index"@ != "tools"@,
        "index"@ != "image"@,
        "index"@ != "usage"@,
        "index"@ != "delta"@,
        "index"@ != "error"@,
        "index"@ != "items"@,
        "model"@ != "top_p"@,
        "model"@ != "input"@,
        "model"@ != "tools"@,
        "model"@ != "image"@,
        "model"@ != "usage"@,
        "model"@ != "delta"@,
        "model"@ != "error"@,
        "model"@ != "items"@,
        "top_p"@ != "input"@,
        "top_p"@ != "tools"@,
        "top_p"@ != "image"@,
        "top_p"@ != "usage"@,
        "top_p"@ != "delta"@,
        "top_p"@ != "error"@,
        "top_p"@ != "items"@,
        "input"@ != "tools"@,
        "input"@ != "image"@,
        "input"@ != "usage"@,
        "input"@ != "delta"@,
        "input"@ != "error"@,
        "input"@ != "items"@,
        "tools"@ != "image"@,
        "tools"@ != "usage"@,
        "tools"@ != "delta"@,
        "tools"@ != "error"@,
        "tools"@ != "items"@,
        "image"@ != "usage"@,
        "image"@ != "delta"@,
        "image"@ != "error"@,
        "image"@ != "items"@,
        "usage"@ != "delta"@,
        "usage"@ != "error"@,
        "usage"@ != "items"@,
        "delta"@ != "error"@,
        "delta"@ != "items"@,
        "error"@ != "items"@,
        "stream"@.len() == 6,
        "effort"@.len() == 6,
        "format"@.len() == 6,
        "schema"@.len() == 6,
        "output"@.len() == 6,
        "result"@.len() == 6,
        "source"@.len() == 6,
        "system"@.len() == 6,
        "status"@.len() == 6,
        "object"@.len() == 6,
        "stream"@ != "effort"@,
        "stream"@ != "format"@,
        "stream"@ != "schema"@,
        "stream"@ != "output"@,
        "stream"@ != "result"@,
        "stream"@ != "source"@,
        "stream"@ != "system"@,
        "stream"@ != "status"@,
        "stream"@ != "object"@,
        "effort"@ != "format"@,
        "effort"@ != "schema"@,
        "effort"@ != "output"@,
        "effort"@ != "result"@,
        "effort"@ != "source"@,
        "effort"@ != "system"@,
        "effort"@ != "status"@,
        "effort"@ != "object"@,
        "format"@ != "schema"@,
        "format"@ != "output"@,
        "format"@ != "result"@,
        "format"@ != "source"@,
        "format"@ != "system"@,
        "format"@ != "status"@,
        "format"@ != "object"@,
        "schema"@ != "output"@,
        "schema"@ != "result"@,
        "schema"@ != "source"@,
        "schema"@ != "system"@,
        "schema"@ != "status"@,
        "schema"@ != "object"@,
        "output"@ != "result"@,
        "output"@ != "source"@,
        "output"@ != "system"@,
        "output"@ != "status"@,
        "output"@ != "object"@,
        "result"@ != "source"@,
        "result"@ != "system"@,
        "result"@ != "status"@,
        "result"@ != "object"@,
        "source"@ != "system"@,
        "source"@ != "status"@,
        "source"@ != "object"@,
        "system"@ != "status"@,
        "system"@ != "object"@,
        "status"@ != "object"@,
        "content"@.len() == 7,
        "message"@.len() == 7,
        "call_id"@.len() == 7,
        "created"@.len() == 7,
        "choices"@.len() == 7,
        "item_id"@.len() == 7,
        "summary"@.len() == 7,
        "file_id"@.len() == 7,
        "command"@.len() == 7,
        "content"@ != "message"@,
        "content"@ != "call_id"@,
        "content"@ != "created"@,
        "content"@ != "choices"@,
        "content"@ != "item_id"@,
        "content"@ != "summary"@,
        "content"@ != "file_id"@,
        "content"@ != "command"@,
        "message"@ != "call_id"@,
        "message"@ != "created"@,
        "message"@ != "choices"@,
        "message"@ != "item_id"@,
        "message"@ != "summary"@,
        "message"@ != "file_id"@,
        "message"@ != "command"@,
        "call_id"@ != "created"@,
        "call_id"@ != "choices"@,
        "call_id"@ != "item_id"@,
        "call_id"@ != "summary"@,
        "call_id"@ != "file_id"@,
        "call_id"@ != "command"@,
        "created"@ != "choices"@,
        "created"@ != "item_id"@,
        "created"@ != "summary"@,
        "created"@ != "file_id"@,
        "created"@ != "command"@,
        "choices"@ != "item_id"@,
        "choices"@ != "summary"@,
        "choices"@ != "file_id"@,
        "choices"@ != "command"@,
        "item_id"@ != "summary"@,
        "item_id"@ != "file_id"@,
        "item_id"@ != "command"@,
        "summary"@ != "file_id"@,
        "summary"@ != "command"@,
        "file_id"@ != "command"@,
        "function"@.len() == 8,
        "messages"@.len() == 8,
        "tool_use"@.len() == 8,
        "response"@.len() == 8,
        "agent_id"@.len() == 8,
        "function"@ != "messages"@,
        "function"@ != "tool_use"@,
        "function"@ != "response"@,
        "function"@ != "agent_id"@,
        "messages"@ != "tool_use"@,
        "messages"@ != "response"@,
        "messages"@ != "agent_id"@,
        "tool_use"@ != "response"@,
        "tool_use"@ != "agent_id"@,
        "response"@ != "agent_id"@,
        "arguments"@.len() == 9,
        "reasoning"@.len() == 9,
        "functions"@.len() == 9,
        "image_url"@.len() == 9,
        "assistant"@.len() == 9,
        "developer"@.len() == 9,
        "file_data"@.len() == 9,
        "BatchTool"@.len() == 9,
        "agent_ids"@.len() == 9,
        "arguments"@ != "reasoning"@,
        "arguments"@ != "functions"@,
        "arguments"@ != "image_url"@,
        "arguments"@ != "assistant"@,
        "arguments"@ != "developer"@,
        "arguments"@ != "file_data"@,
        "arguments"@ != "BatchTool"@,
        "arguments"@ != "agent_ids"@,
        "reasoning"@ != "functions"@,
        "reasoning"@ != "image_url"@,
        "reasoning"@ != "assistant"@,
        "reasoning"@ != "developer"@,
        "reasoning"@ != "file_data"@,
        "reasoning"@ != "BatchTool"@,
        "reasoning"@ != "agent_ids"@,
        "functions"@ != "image_url"@,
        "functions"@ != "assistant"@,
        "functions"@ != "developer"@,
        "functions"@ != "file_data"@,
        "functions"@ != "BatchTool"@,
        "functions"@ != "agent_ids"@,
        "image_url"@ != "assistant"@,
        "image_url"@ != "developer"@,
        "image_url"@ != "file_data"@,
        "image_url"@ != "BatchTool"@,
        "image_url"@ != "agent_ids"@,
        "assistant"@ != "developer"@,
        "assistant"@ != "file_data"@,
        "assistant"@ != "BatchTool"@,
        "assistant"@ != "agent_ids"@,
        "developer"@ != "file_data"@,
        "developer"@ != "BatchTool"@,
        "developer"@ != "agent_ids"@,
        "file_data"@ != "BatchTool"@,
        "file_data"@ != "agent_ids"@,
        "BatchTool"@ != "agent_ids"@,
        "max_tokens"@.len() == 10,
        "parameters"@.len() == 10,
        "tool_calls"@.len() == 10,
        "media_type"@.len() == 10,
        "input_text"@.len() == 10,
        "input_file"@.len() == 10,
        "properties"@.len() == 10,
        "max_tokens"@ != "parameters"@,
        "max_tokens"@ != "tool_calls"@,
        "max_tokens"@ != "media_type"@,
        "max_tokens"@ != "input_text"@,
        "max_tokens"@ != "input_file"@,
        "max_tokens"@ != "properties"@,
        "parameters"@ != "tool_calls"@,
        "parameters"@ != "media_type"@,
        "parameters"@ != "input_text"@,
        "parameters"@ != "input_file"@,
        "parameters"@ != "properties"@,
        "tool_calls"@ != "media_type"@,
        "tool_calls"@ != "input_text"@,
        "tool_calls"@ != "input_file"@,
        "tool_calls"@ != "properties"@,
        "media_type"@ != "input_text"@,
        "media_type"@ != "input_file"@,
        "media_type"@ != "properties"@,
        "input_text"@ != "input_file"@,
        "input_text"@ != "properties"@,
        "input_file"@ != "properties"@,
        "temperature"@.len() == 11,
        "tool_choice"@.len() == 11,
        "json_schema"@.len() == 11,
        "json_object"@.len() == 11,
        "description"@.len() == 11,
        "tool_use_id"@.len() == 11,
        "tool_result"@.len() == 11,
        "input_image"@.len() == 11,
        "output_text"@.len() == 11,
        "temperature"@ != "tool_choice"@,
        "temperature"@ != "json_schema"@,
        "temperature"@ != "json_object"@,
        "temperature"@ != "description"@,
        "temperature"@ != "tool_use_id"@,
        "temperature"@ != "tool_result"@,
        "temperature"@ != "input_image"@,
        "temperature"@ != "output_text"@,
        "tool_choice"@ != "json_schema"@,
        "tool_choice"@ != "json_object"@,
        "tool_choice"@ != "description"@,
        "tool_choice"@ != "tool_use_id"@,
        "tool_choice"@ != "tool_result"@,
        "tool_choice"@ != "input_image"@,
        "tool_choice"@ != "output_text"@,
        "json_schema"@ != "json_object"@,
        "json_schema"@ != "description"@,
        "json_schema"@ != "tool_use_id"@,
        "json_schema"@ != "tool_result"@,
        "json_schema"@ != "input_image"@,
        "json_schema"@ != "output_text"@,
        "json_object"@ != "description"@,
        "json_object"@ != "tool_use_id"@,
        "json_object"@ != "tool_result"@,
        "json_object"@ != "input_image"@,
        "json_object"@ != "output_text"@,
        "description"@ != "tool_use_id"@,
        "description"@ != "tool_result"@,
        "description"@ != "input_image"@,
        "description"@ != "output_text"@,
        "tool_use_id"@ != "tool_result"@,
        "tool_use_id"@ != "input_image"@,
        "tool_use_id"@ != "output_text"@,
        "tool_result"@ != "input_image"@,
        "tool_result"@ != "output_text"@,
        "input_image"@ != "output_text"@,
        "instructions"@.len() == 12,
        "input_schema"@.len() == 12,
        "tool_call_id"@.len() == 12,
        "summary_text"@.len() == 12,
        "total_tokens"@.len() == 12,
        "input_tokens"@.len() == 12,
        "output_index"@.len() == 12,
        "instructions"@ != "input_schema"@,
        "instructions"@ != "tool_call_id"@,
        "instructions"@ != "summary_text"@,
        "instructions"@ != "total_tokens"@,
        "instructions"@ != "input_tokens"@,
        "instructions"@ != "output_index"@,
        "input_schema"@ != "tool_call_id"@,
        "input_schema"@ != "summary_text"@,
        "input_schema"@ != "total_tokens"@,
        "input_schema"@ != "input_tokens"@,
        "input_schema"@ != "output_index"@,
        "tool_call_id"@ != "summary_text"@,
        "tool_call_id"@ != "total_tokens"@,
        "tool_call_id"@ != "input_tokens"@,
        "tool_call_id"@ != "output_index"@,
        "summary_text"@ != "total_tokens"@,
        "summary_text"@ != "input_tokens"@,
        "summary_text"@ != "output_index"@,
        "total_tokens"@ != "input_tokens"@,
        "total_tokens"@ != "output_index"@,
        "input_tokens"@ != "output_index"@,
        "function_call"@.len() == 13,
        "finish_reason"@.len() == 13,
        "prompt_tokens"@.len() == 13,
        "output_tokens"@.len() == 13,
        "cached_tokens"@.len() == 13,
        "summary_index"@.len() == 13,
        "function_call"@ != "finish_reason"@,
        "function_call"@ != "prompt_tokens"@,
        "function_call"@ != "output_tokens"@,
        "function_call"@ != "cached_tokens"@,
        "function_call"@ != "summary_index"@,
        "finish_reason"@ != "prompt_tokens"@,
        "finish_reason"@ != "output_tokens"@,
        "finish_reason"@ != "cached_tokens"@,
        "finish_reason"@ != "summary_index"@,
        "prompt_tokens"@ != "output_tokens"@,
        "prompt_tokens"@ != "cached_tokens"@,
        "prompt_tokens"@ != "summary_index"@,
        "output_tokens"@ != "cached_tokens"@,
        "output_tokens"@ != "summary_index"@,
        "cached_tokens"@ != "summary_index"@,
        "response_format"@.len() == 15,
        "custom_tool_call"@.len() == 16,
        "max_output_tokens"@.len() == 17,
        "completion_tokens"@.len() == 17,
        "reasoning_content"@.len() == 17,
        "reasoning_details"@.len() == 17,
        "max_output_tokens"@ != "completion_tokens"@,
        "max_output_tokens"@ != "reasoning_content"@,
        "max_output_tokens"@ != "reasoning_details"@,
        "completion_tokens"@ != "reasoning_content"@,
        "completion_tokens"@ != "reasoning_details"@,
        "reasoning_content"@ != "reasoning_details"@,
        "system_fingerprint"@.len() == 18,
        "parallel_tool_calls"@.len() == 19,
        "function_call_output"@.len() == 20,
        "input_tokens_details"@.len() == 20,
        "function_call_output"@ != "input_tokens_details"@,
        "prompt_tokens_details"@.len() == 21,
        "output_tokens_details"@.len() == 21,
        "prompt_tokens_details"@ != "output_tokens_details"@,
        "custom_tool_call_output"@.len() == 23,
{
    lemma_keys_of_2();
    lemma_keys_of_3();
    lemma_keys_of_4();
    lemma_keys_of_5();
    lemma_keys_of_6();
    lemma_keys_of_7();
    lemma_keys_of_8();
    lemma_keys_of_9();
    lemma_keys_of_10();
    lemma_keys_of_11();
    lemma_keys_of_12();
    lemma_keys_of_13();
    lemma_keys_of_15();
    lemma_keys_of_16();
    lemma_keys_of_17();
    lemma_keys_of_18();
    lemma_keys_of_19();
    lemma_keys_of_20();
    lemma_keys_of_21();
    lemma_keys_of_23();
}

/// The names of the events that a stream knows differ from one another.
pub proof fn lemma_event_names_differ()
    ensures
        "response.created"@ != "response.output_item.added"@,
        "response.created"@ != "response.output_text.delta"@,
        "response.created"@ != "output_text.delta"@,
        "response.created"@ != "response.function_call_arguments.delta"@,
        "response.created"@ != "function_call_arguments.delta"@,
        "response.created"@ != "response.function_call_arguments.done"@,
        "response.created"@ != "function_call_arguments.done"@,
        "response.created"@ != "response.function_call_output"@,
        "response.created"@ != "function_call_output"@,
        "response.created"@ != "response.custom_tool_call.delta"@,
        "response.created"@ != "custom_tool_call.delta"@,
        "response.created"@ != "response.custom_tool_call.done"@,
        "response.created"@ != "custom_tool_call.done"@,
        "response.created"@ != "response.custom_tool_call_output"@,
        "response.created"@ != "custom_tool_call_output"@,
        "response.created"@ != "response.completed"@,
        "response.created"@ != "response.done"@,
        "response.output_item.added"@ != "response.output_text.delta"@,
        "response.output_item.added"@ != "output_text.delta"@,
        "response.output_item.added"@ != "response.function_call_arguments.delta"@,
        "response.output_item.added"@ != "function_call_arguments.delta"@,
        "response.output_item.added"@ != "response.function_call_arguments.done"@,
        "response.output_item.added"@ != "function_call_arguments.done"@,
        "response.output_item.added"@ != "response.function_call_output"@,
        "response.output_item.added"@ != "function_call_output"@,
        "response.output_item.added"@ != "response.custom_tool_call.delta"@,
        "response.output_item.added"@ != "custom_tool_call.delta"@,
        "response.output_item.added"@ != "response.custom_tool_call.done"@,
        "response.output_item.added"@ != "custom_tool_call.done"@,
        "response.output_item.added"@ != "response.custom_tool_call_output"@,
        "response.output_item.added"@ != "custom_tool_call_output"@,
        "response.output_item.added"@ != "response.completed"@,
        "response.output_item.added"@ != "response.done"@,
        "response.output_text.delta"@ != "output_text.delta"@,
        "response.output_text.delta"@ != "response.function_call_arguments.delta"@,
        "response.output_text.delta"@ != "function_call_arguments.delta"@,
        "response.output_text.delta"@ != "response.function_call_arguments.done"@,
        "response.output_text.delta"@ != "function_call_arguments.done"@,
        "response.output_text.delta"@ != "response.function_call_output"@,
        "response.output_text.delta"@ != "function_call_output"@,
        "response.output_text.delta"@ != "response.custom_tool_call.delta"@,
        "response.output_text.delta"@ != "custom_tool_call.delta"@,
        "response.output_text.delta"@ != "response.custom_tool_call.done"@,
        "response.output_text.delta"@ != "custom_tool_call.done"@,
        "response.output_text.delta"@ != "response.custom_tool_call_output"@,
        "response.output_text.delta"@ != "custom_tool_call_output"@,
        "response.output_text.delta"@ != "response.completed"@,
        "response.output_text.delta"@ != "response.done"@,
        "output_text.delta"@ != "response.function_call_arguments.delta"@,
        "output_text.delta"@ != "function_call_arguments.delta"@,
        "output_text.delta"@ != "response.function_call_arguments.done"@,
        "output_text.delta"@ != "function_call_arguments.done"@,
        "output_text.delta"@ != "response.function_call_output"@,
        "output_text.delta"@ != "function_call_output"@,
        "output_text.delta"@ != "response.custom_tool_call.delta"@,
        "output_text.delta"@ != "custom_tool_call.delta"@,
        "output_text.delta"@ != "response.custom_tool_call.done"@,
        "output_text.delta"@ != "custom_tool_call.done"@,
        "output_text.delta"@ != "response.custom_tool_call_output"@,
        "output_text.delta"@ != "custom_tool_call_output"@,
        "output_text.delta"@ != "response.completed"@,
        "output_text.delta"@ != "response.done"@,
        "response.function_call_arguments.delta"@ != "function_call_arguments.delta"@,
        "response.function_call_arguments.delta"@ != "response.function_call_arguments.done"@,
        "response.function_call_arguments.delta"@ != "function_call_arguments.done"@,
        "response.function_call_arguments.delta"@ != "response.function_call_output"@,
        "response.function_call_arguments.delta"@ != "function_call_output"@,
        "response.function_call_arguments.delta"@ != "response.custom_tool_call.delta"@,
        "response.function_call_arguments.delta"@ != "custom_tool_call.delta"@,
        "response.function_call_arguments.delta"@ != "response.custom_tool_call.done"@,
        "response.function_call_arguments.delta"@ != "custom_tool_call.done"@,
        "response.function_call_arguments.delta"@ != "response.custom_tool_call_output"@,
        "response.function_call_arguments.delta"@ != "custom_tool_call_output"@,
        "response.function_call_arguments.delta"@ != "response.completed"@,
        "response.function_call_arguments.delta"@ != "response.done"@,
        "function_call_arguments.delta"@ != "response.function_call_arguments.done"@,
        "function_call_arguments.delta"@ != "function_call_arguments.done"@,
        "function_call_arguments.delta"@ != "response.function_call_output"@,
        "function_call_arguments.delta"@ != "function_call_output"@,
        "function_call_arguments.delta"@ != "response.custom_tool_call.delta"@,
        "function_call_arguments.delta"@ != "custom_tool_call.delta"@,
        "function_call_arguments.delta"@ != "response.custom_tool_call.done"@,
        "function_call_arguments.delta"@ != "custom_tool_call.done"@,
        "function_call_arguments.delta"@ != "response.custom_tool_call_output"@,
        "function_call_arguments.delta"@ != "custom_tool_call_output"@,
        "function_call_arguments.delta"@ != "response.completed"@,
        "function_call_arguments.delta"@ != "response.done"@,
        "response.function_call_arguments.done"@ != "function_call_arguments.done"@,
        "response.function_call_arguments.done"@ != "response.function_call_output"@,
        "response.function_call_arguments.done"@ != "function_call_output"@,
        "response.function_call_arguments.done"@ != "response.custom_tool_call.delta"@,
        "response.function_call_arguments.done"@ != "custom_tool_call.delta"@,
        "response.function_call_arguments.done"@ != "response.custom_tool_call.done"@,
        "response.function_call_arguments.done"@ != "custom_tool_call.done"@,
        "response.function_call_arguments.done"@ != "response.custom_tool_call_output"@,
        "response.function_call_arguments.done"@ != "custom_tool_call_output"@,
        "response.function_call_arguments.done"@ != "response.completed"@,
        "response.function_call_arguments.done"@ != "response.done"@,
        "function_call_arguments.done"@ != "response.function_call_output"@,
        "function_call_arguments.done"@ != "function_call_output"@,
        "function_call_arguments.done"@ != "response.custom_tool_call.delta"@,
        "function_call_arguments.done"@ != "custom_tool_call.delta"@,
        "function_call_arguments.done"@ != "response.custom_tool_call.done"@,
        "function_call_arguments.done"@ != "custom_tool_call.done"@,
        "function_call_arguments.done"@ != "response.custom_tool_call_output"@,
        "function_call_arguments.done"@ != "custom_tool_call_output"@,
        "function_call_arguments.done"@ != "response.completed"@,
        "function_call_arguments.done"@ != "response.done"@,
        "response.function_call_output"@ != "function_call_output"@,
        "response.function_call_output"@ != "response.custom_tool_call.delta"@,
        "response.function_call_output"@ != "custom_tool_call.delta"@,
        "response.function_call_output"@ != "response.custom_tool_call.done"@,
        "response.function_call_output"@ != "custom_tool_call.done"@,
        "response.function_call_output"@ != "response.custom_tool_call_output"@,
        "response.function_call_output"@ != "custom_tool_call_output"@,
        "response.function_call_output"@ != "response.completed"@,
        "response.function_call_output"@ != "response.done"@,
        "function_call_output"@ != "response.custom_tool_call.delta"@,
        "function_call_output"@ != "custom_tool_call.delta"@,
        "function_call_output"@ != "response.custom_tool_call.done"@,
        "function_call_output"@ != "custom_tool_call.done"@,
        "function_call_output"@ != "response.custom_tool_call_output"@,
        "function_call_output"@ != "custom_tool_call_output"@,
        "function_call_output"@ != "response.completed"@,
        "function_call_output"@ != "response.done"@,
        "response.custom_tool_call.delta"@ != "custom_tool_call.delta"@,
        "response.custom_tool_call.delta"@ != "response.custom_tool_call.done"@,
        "response.custom_tool_call.delta"@ != "custom_tool_call.done"@,
        "response.custom_tool_call.delta"@ != "response.custom_tool_call_output"@,
        "response.custom_tool_call.delta"@ != "custom_tool_call_output"@,
        "response.custom_tool_call.delta"@ != "response.completed"@,
        "response.custom_tool_call.delta"@ != "response.done"@,
        "custom_tool_call.delta"@ != "response.custom_tool_call.done"@,
        "custom_tool_call.delta"@ != "custom_tool_call.done"@,
        "custom_tool_call.delta"@ != "response.custom_tool_call_output"@,
        "custom_tool_call.delta"@ != "custom_tool_call_output"@,
        "custom_tool_call.delta"@ != "response.completed"@,
        "custom_tool_call.delta"@ != "response.done"@,
        "response.custom_tool_call.done"@ != "custom_tool_call.done"@,
        "response.custom_tool_call.done"@ != "response.custom_tool_call_output"@,
        "response.custom_tool_call.done"@ != "custom_tool_call_output"@,
        "response.custom_tool_call.done"@ != "response.completed"@,
        "response.custom_tool_call.done"@ != "response.done"@,
        "custom_tool_call.done"@ != "response.custom_tool_call_output"@,
        "custom_tool_call.done"@ != "custom_tool_call_output"@,
        "custom_tool_call.done"@ != "response.completed"@,
        "custom_tool_call.done"@ != "response.done"@,
        "response.custom_tool_call_output"@ != "custom_tool_call_output"@,
        "response.custom_tool_call_output"@ != "response.completed"@,
        "response.custom_tool_call_output"@ != "response.done"@,
        "custom_tool_call_output"@ != "response.completed"@,
        "custom_tool_call_output"@ != "response.done"@,
        "response.completed"@ != "response.done"@,
{
    reveal_strlit("response.created");
    reveal_strlit("response.output_item.added");
    reveal_strlit("response.output_text.delta");
    reveal_strlit("output_text.delta");
    reveal_strlit("response.function_call_arguments.delta");
    reveal_strlit("function_call_arguments.delta");
    reveal_strlit("response.function_call_arguments.done");
    reveal_strlit("function_call_arguments.done");
    reveal_strlit("response.function_call_output");
    reveal_strlit("function_call_output");
    reveal_strlit("response.custom_tool_call.delta");
    reveal_strlit("custom_tool_call.delta");
    reveal_strlit("response.custom_tool_call.done");
    reveal_strlit("custom_tool_call.done");
    reveal_strlit("response.custom_tool_call_output");
    reveal_strlit("custom_tool_call_output");
    reveal_strlit("response.completed");
    reveal_strlit("response.done");
    assert("response.created"@.len() == 16);
    assert("response.output_item.added"@.len() == 26);
    assert("response.output_text.delta"@.len() == 26);
    assert("output_text.delta"@.len() == 17);
    assert("response.function_call_arguments.delta"@.len() == 38);
    assert("function_call_arguments.delta"@.len() == 29);
    assert("response.function_call_arguments.done"@.len() == 37);
    assert("function_call_arguments.done"@.len() == 28);
    assert("response.function_call_output"@.len() == 29);
    assert("function_call_output"@.len() == 20);
    assert("response.custom_tool_call.delta"@.len() == 31);
    assert("custom_tool_call.delta"@.len() == 22);
    assert("response.custom_tool_call.done"@.len() == 30);
    assert("custom_tool_call.done"@.len() == 21);
    assert("response.custom_tool_call_output"@.len() == 32);
    assert("custom_tool_call_output"@.len() == 23);
    assert("response.completed"@.len() == 18);
    assert("response.done"@.len() == 13);
    assert("response.output_item.added"@[16] != "response.output_text.delta"@[16]);
    assert("function_call_arguments.delta"@[0] != "response.function_call_output"@[0]);
}

} // verus!
