# ratewall

A small reverse proxy in front of internal HTTP services, written in Verus: what the gateway
decides is stated in contracts and proved.

It routes by path prefix, lets requests pass only with a verified Ed25519 token (fail-closed),
limits them by counters in Redis (fail-open), cuts off backends that do not answer, and
exposes metrics in the Prometheus text format. It refuses to start on a bad configuration.

## Layout

`src/` is the verified library.

| Module | What it holds |
|---|---|
| `config` | the configuration and its validation |
| `auth`, `keys`, `codec` | tokens, the signing key, base64url and JSON |
| `auth_login` | the demo login |
| `middleware`, `middleware_auth` | request identifiers, the bearer check |
| `ratelimit` | fixed-window limits |
| `circuit` | circuit breakers |
| `metrics` | the registry and its text exposition |
| `router` | what can happen to a request; readiness; scrapes |
| `proxy` | the course of a request, step by step |
| `reply` | replies of the gateway itself |
| `mock_backends` | what the mock backends of the demo answer |
| `table`, `text`, `time` | ordered tables, characters and numbers, lengths of time |

Proof functions whose names begin with `law_` state what holds of the library as a whole.

`app/` is the process around it: sockets, files, Redis, logging. It performs what the library
decides and hands back what came of it.

`tests/` holds the tests of the library.

## What is trusted

Base64, JSON, Ed25519, PEM, UUIDs, the reading of Redis URLs, the clocks and the quoting of
strings come from outside crates and the standard library. Each such call stands in a function
marked `#[verifier::external_body]`, or, for `String::push`, behind an `assume_specification`,
and the comment above it says what is claimed of it.

## Running

The gateway reads the file that `RATEWALL_CONFIG` names, `/etc/ratewall/config.toml` by
default:

```toml
port = 8080

[routes]
crm = "http://crm:3000"
hrm = "http://hrm:3001"
```

With `mock-crm` or `mock-hrm` as its argument the process is a mock backend.
