# gsc_mcp_rs

An MCP server for Google Search Console whose logic is verified with Verus.

- `src/` is the verified library: validation of tool parameters, calendar
  and date-window arithmetic, the planning of Search Analytics queries, the
  retry policy of API requests, token decisions, the OAuth callback parser,
  base64 and the RS256-signed JWT of service accounts (RSA signing through
  *ring*), CSV escaping, the pairing of rows across two periods, and every
  fixed text that the tools answer with.
- `app/` is the program around it: the MCP server (rmcp), HTTP (reqwest),
  files and environment, and the rendering of floating-point metrics.
- `tests/` exercises the library on concrete values.

Run `gsc-mcp-rs stdio` to serve MCP on standard input and output, and
`gsc-mcp-rs auth` once to sign in with OAuth.
