//! The scripts that bootstrap the runtimes of `eval` and `compute`: each
//! connects back to the control channel whose address it finds in
//! `FIRE_RUNTIME_RPC_ADDR` and answers `load`, `eval` and `exit` requests.

use vstd::prelude::*;

verus! {

/// The bootstrap script for Python.
pub const PYTHON_BOOTSTRAP: &'static str = r#"import json, os, socket, sys
ctx = globals()
addr = os.environ.get("FIRE_RUNTIME_RPC_ADDR", "")
if ":" not in addr:
    sys.stderr.write("Missing FIRE_RUNTIME_RPC_ADDR\n")
    sys.stderr.flush()
    sys.exit(1)
host, port = addr.rsplit(":", 1)
sock = socket.create_connection((host, int(port)))
reader = sock.makefile("r", encoding="utf-8", newline="\n")
writer = sock.makefile("w", encoding="utf-8", newline="\n")
def send(line):
    writer.write(line + "\n")
    writer.flush()
for raw in reader:
    raw = raw.strip()
    if not raw:
        continue
    msg = json.loads(raw)
    rid = str(msg.get("id", "0"))
    try:
        op = msg.get("op")
        if op == "load":
            with open(msg["path"], "r", encoding="utf-8") as handle:
                exec(handle.read(), ctx)
            send(f"__FIRE_DONE__{rid}")
        elif op == "eval":
            code = msg["code"]
            try:
                value = eval(code, ctx)
            except SyntaxError:
                exec(code, ctx)
                value = None
            if isinstance(value, list) and all(isinstance(item, str) for item in value):
                payload = json.dumps({"kind": "commands", "commands": value}, ensure_ascii=False)
                send(f"__FIRE_RESULT__{rid}:{payload}")
            elif isinstance(value, str):
                payload = json.dumps({"kind": "text", "text": value}, ensure_ascii=False)
                send(f"__FIRE_RESULT__{rid}:{payload}")
            elif value is not None:
                payload = json.dumps({"kind": "text", "text": str(value)}, ensure_ascii=False)
                send(f"__FIRE_RESULT__{rid}:{payload}")
            send(f"__FIRE_DONE__{rid}")
        elif op == "exit":
            send(f"__FIRE_DONE__{rid}")
            break
    except Exception as err:
        send(f"__FIRE_ERROR__{rid}:{err}")
        send(f"__FIRE_DONE__{rid}")"#;

/// The bootstrap script for Python.
pub fn python_runtime_bootstrap_script() -> (r: &'static str)
    ensures
        r@ == PYTHON_BOOTSTRAP@,
{
    PYTHON_BOOTSTRAP
}

/// The bootstrap script for Node.js.
pub const NODE_BOOTSTRAP: &'static str = r#"const net = require("node:net");
const readline = require("node:readline");
const { pathToFileURL } = require("node:url");
const addr = process.env.FIRE_RUNTIME_RPC_ADDR || "";
const [host, portRaw] = addr.split(":");
if (!host || !portRaw) process.exit(1);
const socket = net.createConnection({ host, port: Number(portRaw) });
const rl = readline.createInterface({ input: socket, crlfDelay: Infinity });
const done = (id) => socket.write(`__FIRE_DONE__${id}\n`);
const result = (id, payload) => socket.write(`__FIRE_RESULT__${id}:${JSON.stringify(payload)}\n`);
rl.on("line", async (line) => {
  const trimmed = line.trim();
  if (!trimmed) return;
  let msg;
  try {
    msg = JSON.parse(trimmed);
  } catch (err) {
    return;
  }
  const id = String(msg.id ?? "0");
  try {
    if (msg.op === "load") {
      const mod = await import(pathToFileURL(msg.path).href);
      Object.assign(globalThis, mod);
      done(id);
      return;
    }
    if (msg.op === "eval") {
      const value = await eval(msg.code);
      if (Array.isArray(value) && value.every((item) => typeof item === "string")) {
        result(id, { kind: "commands", commands: value });
      } else if (typeof value === "string") {
        result(id, { kind: "text", text: value });
      } else if (value !== undefined) {
        result(id, { kind: "text", text: String(value) });
      }
      done(id);
      return;
    }
    if (msg.op === "exit") {
      done(id);
      process.exit(0);
    }
  } catch (err) {
    socket.write(`__FIRE_ERROR__${id}:${err && err.message ? err.message : String(err)}\n`);
    done(id);
  }
});"#;

/// The bootstrap script for Node.js.
pub fn node_runtime_bootstrap_script() -> (r: &'static str)
    ensures
        r@ == NODE_BOOTSTRAP@,
{
    NODE_BOOTSTRAP
}

/// The bootstrap script for Deno.
pub const DENO_BOOTSTRAP: &'static str = r#"const encoder = new TextEncoder();
const decoder = new TextDecoder();
const addr = Deno.env.get("FIRE_RUNTIME_RPC_ADDR") ?? "";
const [host, portRaw] = addr.split(":");
if (!host || !portRaw) Deno.exit(1);
const conn = await Deno.connect({ hostname: host, port: Number(portRaw) });
let buffer = "";
const writeLine = async (value) => {
  await conn.write(encoder.encode(value + "\n"));
};
const done = async (id) => writeLine(`__FIRE_DONE__${id}`);
const result = async (id, payload) => writeLine(`__FIRE_RESULT__${id}:${JSON.stringify(payload)}`);
const toFileUrl = (path) => new URL(`file://${path.startsWith("/") ? path : "/" + path}`).href;
const handle = async (line) => {
  const trimmed = line.trim();
  if (!trimmed) return;
  let msg;
  try {
    msg = JSON.parse(trimmed);
  } catch (_) {
    return;
  }
  const id = String(msg.id ?? "0");
  try {
    if (msg.op === "load") {
      const mod = await import(toFileUrl(msg.path));
      Object.assign(globalThis, mod);
      await done(id);
      return;
    }
    if (msg.op === "eval") {
      const value = await eval(msg.code);
      if (Array.isArray(value) && value.every((item) => typeof item === "string")) {
        await result(id, { kind: "commands", commands: value });
      } else if (typeof value === "string") {
        await result(id, { kind: "text", text: value });
      } else if (value !== undefined) {
        await result(id, { kind: "text", text: String(value) });
      }
      await done(id);
      return;
    }
    if (msg.op === "exit") {
      await done(id);
      Deno.exit(0);
    }
  } catch (err) {
    await writeLine(`__FIRE_ERROR__${id}:${err && err.message ? err.message : String(err)}`);
    await done(id);
  }
};
for await (const chunk of conn.readable) {
  buffer += decoder.decode(chunk, { stream: true });
  let idx = buffer.indexOf("\n");
  while (idx >= 0) {
    const line = buffer.slice(0, idx);
    buffer = buffer.slice(idx + 1);
    await handle(line);
    idx = buffer.indexOf("\n");
  }
}"#;

/// The bootstrap script for Deno.
pub fn deno_runtime_bootstrap_script() -> (r: &'static str)
    ensures
        r@ == DENO_BOOTSTRAP@,
{
    DENO_BOOTSTRAP
}

} // verus!
